use visit_counter::render::{build_custom_css, generate_svg, SvgOptions};

#[test]
fn default_svg_names_label_and_count_twice() {
    let svg = generate_svg("Visits", 42, "", 150, 20, None);
    assert_eq!(svg.matches("Visits").count(), 2);
    assert_eq!(svg.matches("42").count(), 2);
    assert_eq!(svg.matches("<svg").count(), 1);
    assert_eq!(svg.matches("</svg>").count(), 1);
    assert!(svg.starts_with("<?xml version=\"1.0\" encoding=\"UTF-8\"?>"));
    assert!(svg.contains("<svg width=\"150\" height=\"20\""));
    assert!(svg.ends_with("</svg>"));
}

#[test]
fn svg_embeds_the_css_verbatim() {
    let svg = generate_svg("x", 1, ".label { fill: red; }", 150, 20, None);
    assert!(svg.contains("<![CDATA[\n.label { fill: red; }\n]]>"));
}

#[test]
fn svg_border_rect_is_inset_by_half_the_border() {
    let mut opts = SvgOptions::default();
    opts.border_width = Some(10);
    let svg = generate_svg("v", 1, "", 150, 20, Some(&opts));
    assert!(svg.contains(
        "<rect class=\"border-rect\" width=\"140\" height=\"10\" x=\"5\" y=\"5\"/>"
    ));
}

#[test]
fn svg_odd_border_prints_half_pixels() {
    let mut opts = SvgOptions::default();
    opts.border_width = Some(3);
    let svg = generate_svg("v", 1, "", 150, 20, Some(&opts));
    assert!(svg.contains(
        "<rect class=\"border-rect\" width=\"147\" height=\"17\" x=\"1.5\" y=\"1.5\"/>"
    ));
}

#[test]
fn svg_logo_size_follows_the_height() {
    let mut opts = SvgOptions::default();
    opts.logo_url = Some("https://example.test/logo.png".to_string());
    let small = generate_svg("v", 1, "", 150, 20, Some(&opts));
    assert!(small.contains("class=\"logo-image\" width=\"16\" height=\"16\""));
    let tall = generate_svg("v", 1, "", 150, 30, Some(&opts));
    assert!(tall.contains("class=\"logo-image\" width=\"21\" height=\"21\""));
}

#[test]
fn empty_options_give_empty_css() {
    assert_eq!(build_custom_css(None), "");
}

#[test]
fn text_color_fills_in_for_missing_specific_colors() {
    let mut opts = SvgOptions::default();
    opts.text_color = Some("#abc".to_string());
    let css = build_custom_css(Some(opts));
    assert!(css.contains("--label-color: #abc;"));
    assert!(css.contains("--counter-color: #abc;"));
}

#[test]
fn explicit_label_color_wins_over_text_color() {
    let mut opts = SvgOptions::default();
    opts.text_color = Some("#abc".to_string());
    opts.label_color = Some("#def".to_string());
    let css = build_custom_css(Some(opts));
    assert!(css.contains("--label-color: #def;"));
    assert!(!css.contains("--label-color: #abc;"));
    assert!(css.contains("--counter-color: #abc;"));
}

#[test]
fn background_color_fills_in_for_missing_backgrounds() {
    let mut opts = SvgOptions::default();
    opts.background_color = Some("123456".to_string());
    opts.background_counter = Some("#fff".to_string());
    let css = build_custom_css(Some(opts));
    assert!(css.contains("--background-label: #123456;"));
    assert!(css.contains("--background-counter: #fff;"));
    assert!(!css.contains("--background-counter: #123456;"));
}

#[test]
fn colors_gain_a_hash_prefix_when_missing() {
    let mut opts = SvgOptions::default();
    opts.grad_stop1_color = Some("ff0000".to_string());
    let css = build_custom_css(Some(opts));
    assert!(css.contains("--grad-stop1-color: #ff0000;"));
    let mut opts2 = SvgOptions::default();
    opts2.grad_stop1_color = Some("#00ff00".to_string());
    let css2 = build_custom_css(Some(opts2));
    assert!(css2.contains("--grad-stop1-color: #00ff00;"));
}

#[test]
fn border_radius_clamps_the_inner_mask_at_zero() {
    let mut opts = SvgOptions::default();
    opts.border_radius = Some(2);
    opts.border_width = Some(10);
    let css = build_custom_css(Some(opts));
    assert!(css.contains(".border-rect { rx: 2px; ry: 2px; }"));
    assert!(css.contains(".mask-rect { rx: 0px; ry: 0px; }"));
}

#[test]
fn border_radius_pulls_the_mask_inward() {
    let mut opts = SvgOptions::default();
    opts.border_radius = Some(3);
    opts.border_width = Some(1);
    let css = build_custom_css(Some(opts));
    assert!(css.contains(".border-rect { rx: 3px; ry: 3px; }"));
    assert!(css.contains(".mask-rect { rx: 3px; ry: 3px; }"));
}

#[test]
fn border_without_radius_defaults_to_three_pixels() {
    let mut opts = SvgOptions::default();
    opts.border_width = Some(4);
    let css = build_custom_css(Some(opts));
    assert!(css.contains(".border-rect { rx: 3px; ry: 3px; }"));
    assert!(css.contains(".mask-rect { rx: 1px; ry: 1px; }"));
    assert!(css.contains(".border-rect { fill: none; stroke: #cccccc; stroke-width: 4; }"));
}

#[test]
fn border_stroke_uses_the_normalized_border_color() {
    let mut opts = SvgOptions::default();
    opts.border_width = Some(2);
    opts.border_color = Some("aabbcc".to_string());
    let css = build_custom_css(Some(opts));
    assert!(css.contains(".border-rect { fill: none; stroke: #aabbcc; stroke-width: 2; }"));
}

#[test]
fn width_is_distributed_two_thirds_to_the_label() {
    let mut opts = SvgOptions::default();
    opts.width = Some(200);
    let css = build_custom_css(Some(opts));
    assert!(css.contains("--width: 200px;"));
    assert!(css.contains("--label-width: 133px;"));
    assert!(css.contains("--label-offset-x: 66px;"));
    assert!(css.contains("--counter-width: 67px;"));
    assert!(css.contains("--counter-offset-x: 166px;"));
}

#[test]
fn explicit_section_widths_win_over_auto_layout() {
    let mut opts = SvgOptions::default();
    opts.width = Some(200);
    opts.label_width = Some(80);
    opts.counter_width = Some(40);
    let css = build_custom_css(Some(opts));
    assert!(css.contains("--label-width: 80px;"));
    assert!(css.contains("--counter-width: 40px;"));
    assert!(!css.contains("--label-offset-x:"));
}

#[test]
fn logo_takes_its_width_out_of_the_layout() {
    let mut opts = SvgOptions::default();
    opts.width = Some(160);
    opts.logo_url = Some("l.png".to_string());
    opts.logo_width = Some(20);
    let css = build_custom_css(Some(opts));
    assert!(css.contains("--label-width: 70px;"));
    assert!(css.contains("--label-offset-x: 35px;"));
    assert!(css.contains("--logo-width: 20px;"));
    assert!(css.contains("--logo-offset-x: 80px;"));
    assert!(css.contains("--counter-width: 70px;"));
    assert!(css.contains("--counter-offset-x: 125px;"));
}

#[test]
fn element_positions_reorder_the_sections() {
    let mut opts = SvgOptions::default();
    opts.width = Some(100);
    opts.element_positions = Some(" counter , label ".to_string());
    let css = build_custom_css(Some(opts));
    assert!(css.contains("--counter-offset-x: 16px;"));
    assert!(css.contains("--label-offset-x: 66px;"));
}

#[test]
fn unknown_layout_tokens_are_ignored() {
    let mut opts = SvgOptions::default();
    opts.width = Some(100);
    opts.element_positions = Some("banner,label,counter".to_string());
    let css = build_custom_css(Some(opts));
    assert!(!css.contains("banner"));
    assert!(css.contains("--label-width: 67px;"));
}

#[test]
fn non_default_height_recenters_the_text() {
    let mut opts = SvgOptions::default();
    opts.height = Some(40);
    let css = build_custom_css(Some(opts));
    assert!(css.contains("--height: 40px;"));
    assert!(css.contains(":root { --label-offset-y: 24px; --counter-offset-y: 24px; }"));
}

#[test]
fn default_height_keeps_the_stock_offsets() {
    let mut opts = SvgOptions::default();
    opts.height = Some(20);
    let css = build_custom_css(Some(opts));
    assert!(!css.contains("--label-offset-y:"));
}

#[test]
fn font_weight_gets_a_variable_and_a_direct_rule() {
    let mut opts = SvgOptions::default();
    opts.font_weight = Some("bold".to_string());
    let css = build_custom_css(Some(opts));
    assert!(css.contains(":root { --font-weight: bold; }"));
    assert!(css.contains(".text-group { font-weight: bold !important; }"));
}

#[test]
fn radius_sets_the_variable_and_the_mask_rule() {
    let mut opts = SvgOptions::default();
    opts.radius = Some(6);
    let css = build_custom_css(Some(opts));
    assert!(css.contains("--radius: 6px;"));
    assert!(css.contains(".mask-rect { rx: 6px; ry: 6px; }"));
}

#[test]
fn free_form_style_lands_verbatim_at_the_end() {
    let mut opts = SvgOptions::default();
    opts.style = Some(".label { display: none; }".to_string());
    let css = build_custom_css(Some(opts));
    assert!(css.ends_with(".label { display: none; }"));
}

#[test]
fn opacity_values_pass_through_verbatim() {
    let mut opts = SvgOptions::default();
    opts.grad_stop1_opacity = Some("0.4".to_string());
    opts.shadow_opacity = Some("0.75".to_string());
    let css = build_custom_css(Some(opts));
    assert!(css.contains("--grad-stop1-opacity: 0.4;"));
    assert!(css.contains("--shadow-opacity: 0.75;"));
}

#[test]
fn logo_rules_use_the_size_for_the_height() {
    let mut opts = SvgOptions::default();
    opts.logo_url = Some("l.png".to_string());
    opts.height = Some(30);
    let css = build_custom_css(Some(opts));
    assert!(css.contains(".logo-image"));
    assert!(css.contains("translate(calc(var(--logo-offset-x, 50px) - 15px), 4px);"));
}
