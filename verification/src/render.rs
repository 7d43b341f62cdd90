//! The badge renderer: a pure transformation of label, count and options
//! into SVG markup, and of options into a block of CSS custom properties.
//!
//! Every function here is deterministic text assembly; the contracts state
//! the produced text exactly, as a concatenation over the option fields.
//! Fractional factors from the layout rules (70%, 80%, 66.7%, half a
//! border) are computed in integer arithmetic with round-half-up, the
//! mathematical reading of the rules.

use vstd::prelude::*;

use crate::numtext::{dec_digits, push_u64};
use crate::strtext::push_char;

verus! {

/// The caller-supplied rendering options. Every field is optional; absence
/// means the built-in default. Opacity fields carry the decimal text that
/// is embedded verbatim, as all free-text fields are.
#[derive(Clone)]
pub struct SvgOptions {
    pub label: Option<String>,
    pub style: Option<String>,
    pub width: Option<u32>,
    pub height: Option<u32>,
    pub label_width: Option<u32>,
    pub counter_width: Option<u32>,
    pub radius: Option<u32>,
    pub grad_stop1_color: Option<String>,
    pub grad_stop1_opacity: Option<String>,
    pub grad_stop2_opacity: Option<String>,
    pub font_family: Option<String>,
    pub font_size: Option<u32>,
    pub font_weight: Option<String>,
    pub label_offset_x: Option<u32>,
    pub label_offset_y: Option<u32>,
    pub counter_offset_x: Option<u32>,
    pub counter_offset_y: Option<u32>,
    pub shadow_fill: Option<String>,
    pub shadow_opacity: Option<String>,
    pub background_label: Option<String>,
    pub background_counter: Option<String>,
    pub label_color: Option<String>,
    pub counter_color: Option<String>,
    pub text_color: Option<String>,
    pub background_color: Option<String>,
    pub border_width: Option<u32>,
    pub border_color: Option<String>,
    pub border_radius: Option<u32>,
    pub logo_url: Option<String>,
    pub logo_width: Option<u32>,
    pub element_positions: Option<String>,
}

impl Default for SvgOptions {
    /// All fields absent: every built-in default applies.
    fn default() -> (r: SvgOptions)
        ensures
            r.label is None,
            r.style is None,
            r.width is None,
            r.height is None,
            r.label_width is None,
            r.counter_width is None,
            r.radius is None,
            r.grad_stop1_color is None,
            r.grad_stop1_opacity is None,
            r.grad_stop2_opacity is None,
            r.font_family is None,
            r.font_size is None,
            r.font_weight is None,
            r.label_offset_x is None,
            r.label_offset_y is None,
            r.counter_offset_x is None,
            r.counter_offset_y is None,
            r.shadow_fill is None,
            r.shadow_opacity is None,
            r.background_label is None,
            r.background_counter is None,
            r.label_color is None,
            r.counter_color is None,
            r.text_color is None,
            r.background_color is None,
            r.border_width is None,
            r.border_color is None,
            r.border_radius is None,
            r.logo_url is None,
            r.logo_width is None,
            r.element_positions is None,
    {
        SvgOptions {
            label: None,
            style: None,
            width: None,
            height: None,
            label_width: None,
            counter_width: None,
            radius: None,
            grad_stop1_color: None,
            grad_stop1_opacity: None,
            grad_stop2_opacity: None,
            font_family: None,
            font_size: None,
            font_weight: None,
            label_offset_x: None,
            label_offset_y: None,
            counter_offset_x: None,
            counter_offset_y: None,
            shadow_fill: None,
            shadow_opacity: None,
            background_label: None,
            background_counter: None,
            label_color: None,
            counter_color: None,
            text_color: None,
            background_color: None,
            border_width: None,
            border_color: None,
            border_radius: None,
            logo_url: None,
            logo_width: None,
            element_positions: None,
        }
    }
}

/// The view of an optional owned string.
pub open spec fn opt_view(v: Option<String>) -> Option<Seq<char>> {
    match v {
        Option::Some(s) => Some(s@),
        Option::None => None,
    }
}

/// A color with a `#` put in front unless it already starts with one; no
/// other validation, as the rules demand.
pub open spec fn normalize_color(c: Seq<char>) -> Seq<char> {
    if c.len() >= 1 && c[0] == '#' {
        c
    } else {
        seq!['#'] + c
    }
}

/// A property line with a pixel value, or nothing when the option is
/// absent.
pub open spec fn px_prop(name: Seq<char>, v: Option<u32>) -> Seq<char> {
    match v {
        Option::Some(x) => seq![' ', ' '] + name + seq![':', ' '] + dec_digits(x as nat) + seq![
            'p',
            'x',
            ';',
            '\n',
        ],
        Option::None => Seq::empty(),
    }
}

/// A property line with the value taken verbatim, or nothing.
pub open spec fn verbatim_prop(name: Seq<char>, v: Option<Seq<char>>) -> Seq<char> {
    match v {
        Option::Some(x) => seq![' ', ' '] + name + seq![':', ' '] + x + seq![';', '\n'],
        Option::None => Seq::empty(),
    }
}

/// A property line with a normalized color value, or nothing.
pub open spec fn color_prop(name: Seq<char>, v: Option<Seq<char>>) -> Seq<char> {
    match v {
        Option::Some(x) => seq![' ', ' '] + name + seq![':', ' '] + normalize_color(x) + seq![
            ';',
            '\n',
        ],
        Option::None => Seq::empty(),
    }
}

/// Appends a `#`-normalized color.
fn push_color(out: &mut String, c: &str)
    ensures
        final(out)@ == old(out)@ + normalize_color(c@),
{
    if c.unicode_len() >= 1 && c.get_char(0) == '#' {
        out.append(c);
    } else {
        push_char(out, '#');
        out.append(c);
        proof {
            assert(out@ =~= old(out)@ + normalize_color(c@));
        }
    }
}

/// Appends a pixel property line if the value is there.
fn push_px_prop(out: &mut String, name: &str, v: Option<u32>)
    ensures
        final(out)@ == old(out)@ + px_prop(name@, v),
{
    proof {
        reveal_strlit("  ");
        reveal_strlit(": ");
        reveal_strlit("px;\n");
    }
    match v {
        Some(x) => {
            out.append("  ");
            out.append(name);
            out.append(": ");
            push_u64(out, x as u64);
            out.append("px;\n");
            proof {
                assert(out@ =~= old(out)@ + px_prop(name@, v));
            }
        },
        None => {
            proof {
                assert(out@ =~= old(out)@ + px_prop(name@, v));
            }
        },
    }
}

/// Appends a verbatim property line if the value is there.
fn push_verbatim_prop(out: &mut String, name: &str, v: &Option<String>)
    ensures
        final(out)@ == old(out)@ + verbatim_prop(name@, opt_view(*v)),
{
    proof {
        reveal_strlit("  ");
        reveal_strlit(": ");
        reveal_strlit(";\n");
    }
    match v {
        Some(x) => {
            out.append("  ");
            out.append(name);
            out.append(": ");
            out.append(x.as_str());
            out.append(";\n");
            proof {
                assert(out@ =~= old(out)@ + verbatim_prop(name@, opt_view(*v)));
            }
        },
        None => {
            proof {
                assert(out@ =~= old(out)@ + verbatim_prop(name@, opt_view(*v)));
            }
        },
    }
}

/// Appends a color property line if the value is there.
fn push_color_prop(out: &mut String, name: &str, v: &Option<String>)
    ensures
        final(out)@ == old(out)@ + color_prop(name@, opt_view(*v)),
{
    proof {
        reveal_strlit("  ");
        reveal_strlit(": ");
        reveal_strlit(";\n");
    }
    match v {
        Some(x) => {
            out.append("  ");
            out.append(name);
            out.append(": ");
            push_color(out, x.as_str());
            out.append(";\n");
            proof {
                assert(out@ =~= old(out)@ + color_prop(name@, opt_view(*v)));
            }
        },
        None => {
            proof {
                assert(out@ =~= old(out)@ + color_prop(name@, opt_view(*v)));
            }
        },
    }
}


/// Whether `c` is blank space trimmed from a layout token.
pub open spec fn is_space(c: char) -> bool {
    c == ' ' || c == '\t' || c == '\n' || c == '\r'
}

/// First position at or after `i` holding a comma, or the end.
pub open spec fn first_comma(s: Seq<char>, i: int) -> int
    decreases s.len() - i,
    when 0 <= i <= s.len()
{
    if i < s.len() && s[i] != ',' {
        first_comma(s, i + 1)
    } else {
        i
    }
}

/// `first_comma` stays between its start and the end of the text.
pub proof fn lemma_first_comma_bounds(s: Seq<char>, i: int)
    requires
        0 <= i <= s.len(),
    ensures
        i <= first_comma(s, i) <= s.len(),
        first_comma(s, i) < s.len() ==> s[first_comma(s, i)] == ',',
        forall|k: int| i <= k < first_comma(s, i) ==> s[k] != ',',
    decreases s.len() - i,
{
    if i < s.len() && s[i] != ',' {
        lemma_first_comma_bounds(s, i + 1);
    }
}

/// The comma-separated pieces of `s` from position `i` on.
pub open spec fn split_from(s: Seq<char>, i: int) -> Seq<Seq<char>>
    decreases s.len() - i,
    when 0 <= i <= s.len()
    via split_from_decreases
{
    let e = first_comma(s, i);
    if e == s.len() {
        seq![s.subrange(i, e)]
    } else {
        seq![s.subrange(i, e)] + split_from(s, e + 1)
    }
}

#[via_fn]
proof fn split_from_decreases(s: Seq<char>, i: int) {
    lemma_first_comma_bounds(s, i);
}

/// The comma-separated pieces of `s`, empty pieces included.
pub open spec fn split_commas(s: Seq<char>) -> Seq<Seq<char>> {
    split_from(s, 0)
}

/// `s` without leading space.
pub open spec fn trim_start(s: Seq<char>) -> Seq<char>
    decreases s.len(),
{
    if s.len() > 0 && is_space(s[0]) {
        trim_start(s.skip(1))
    } else {
        s
    }
}

/// `s` without trailing space.
pub open spec fn trim_end(s: Seq<char>) -> Seq<char>
    decreases s.len(),
{
    if s.len() > 0 && is_space(s.last()) {
        trim_end(s.drop_last())
    } else {
        s
    }
}

/// `s` without leading and trailing space.
pub open spec fn trim(s: Seq<char>) -> Seq<char> {
    trim_end(trim_start(s))
}

/// Blank space up to `l`, and a non-space or the end at `l`, pin down
/// `trim_start`.
proof fn lemma_trim_start_at(s: Seq<char>, l: int)
    requires
        0 <= l <= s.len(),
        forall|k: int| 0 <= k < l ==> is_space(#[trigger] s[k]),
        l == s.len() || !is_space(s[l]),
    ensures
        trim_start(s) == s.skip(l),
    decreases l,
{
    if l == 0 {
        assert(s.skip(0) =~= s);
    } else {
        assert(is_space(s[0]));
        assert(forall|k: int| 0 <= k < l - 1 ==> is_space(#[trigger] s.skip(1)[k]));
        assert(l - 1 == s.skip(1).len() || !is_space(s.skip(1)[l - 1]));
        lemma_trim_start_at(s.skip(1), l - 1);
        assert(s.skip(1).skip(l - 1) =~= s.skip(l));
    }
}

/// Blank space from `r` on, and a non-space or the start at `r`, pin down
/// `trim_end`.
proof fn lemma_trim_end_at(s: Seq<char>, r: int)
    requires
        0 <= r <= s.len(),
        forall|k: int| r <= k < s.len() ==> is_space(#[trigger] s[k]),
        r == 0 || !is_space(s[r - 1]),
    ensures
        trim_end(s) == s.take(r),
    decreases s.len() - r,
{
    if r == s.len() {
        assert(s.take(r) =~= s);
        if s.len() > 0 && is_space(s.last()) {
            assert(!is_space(s[r - 1]));
            assert(false);
        }
    } else {
        assert(is_space(s.last()));
        assert(forall|k: int| r <= k < s.drop_last().len() ==> is_space(#[trigger] s.drop_last()[k]));
        lemma_trim_end_at(s.drop_last(), r);
        assert(s.drop_last().take(r) =~= s.take(r));
    }
}

/// Whether `c` is blank space, executably.
fn is_space_exec(c: char) -> (r: bool)
    ensures
        r == is_space(c),
{
    c == ' ' || c == '\t' || c == '\n' || c == '\r'
}

/// The trimmed middle of `s`, as an executable function.
fn trim_exec(s: &str) -> (r: String)
    ensures
        r@ == trim(s@),
{
    let n = s.unicode_len();
    let mut l: usize = 0;
    while l < n && is_space_exec(s.get_char(l))
        invariant
            n == s@.len(),
            l <= n,
            forall|k: int| 0 <= k < l ==> is_space(#[trigger] s@[k]),
        decreases n - l,
    {
        l += 1;
    }
    proof {
        lemma_trim_start_at(s@, l as int);
    }
    let mut r: usize = n;
    while r > l && is_space_exec(s.get_char(r - 1))
        invariant
            n == s@.len(),
            l <= r <= n,
            forall|k: int| 0 <= k < l ==> is_space(#[trigger] s@[k]),
            forall|k: int| r <= k < n ==> is_space(#[trigger] s@[k]),
        decreases r,
    {
        r -= 1;
    }
    let ghost st = trim_start(s@);
    proof {
        assert(st == s@.skip(l as int));
        assert(forall|k: int|
            r - l <= k < st.len() ==> is_space(#[trigger] st[k])) by {
            assert(forall|k: int| 0 <= k < st.len() ==> st[k] == s@[l + k]);
        }
        if r > l {
            assert(!is_space(s@[r - 1 as int]));
            assert(st[r - l - 1] == s@[r - 1 as int]);
        }
        lemma_trim_end_at(st, r - l as int);
        assert(st.take(r - l as int) =~= s@.subrange(l as int, r as int));
    }
    let piece = s.substring_char(l, r);
    let mut out = String::new();
    out.append(piece);
    proof {
        assert(out@ =~= trim(s@));
    }
    out
}

/// The comma-separated, trimmed layout tokens of `s`.
fn split_trimmed(s: &str) -> (r: Vec<String>)
    ensures
        r@.map_values(|t: String| t@) == split_commas(s@).map_values(|t: Seq<char>| trim(t)),
{
    let n = s.unicode_len();
    let mut out: Vec<String> = Vec::new();
    let mut start: usize = 0;
    loop
        invariant
            n == s@.len(),
            start <= n,
            split_commas(s@).map_values(|t: Seq<char>| trim(t)) =~= out@.map_values(
                |t: String| t@,
            ) + split_from(s@, start as int).map_values(|t: Seq<char>| trim(t)),
        decreases n - start,
    {
        let mut e: usize = start;
        while e < n && s.get_char(e) != ','
            invariant
                n == s@.len(),
                start <= e <= n,
                forall|k: int| start <= k < e ==> s@[k] != ',',
            decreases n - e,
        {
            e += 1;
        }
        proof {
            assert(first_comma(s@, start as int) == e as int) by {
                lemma_first_comma_bounds(s@, start as int);
                let fc = first_comma(s@, start as int);
                if fc < e {
                    assert(s@[fc] == ',');
                }
                if fc > e {
                    assert(e < n);
                    assert(s@[e as int] == ',');
                }
            }
        }
        let piece = s.substring_char(start, e);
        let t = trim_exec(piece);
        out.push(t);
        proof {
            let f = |t: Seq<char>| trim(t);
            let g = |t: String| t@;
            let rest = split_from(s@, start as int);
            assert(rest[0] == s@.subrange(start as int, e as int));
            if e < n {
                assert(rest =~= seq![rest[0]] + split_from(s@, e + 1 as int));
                assert(rest.map_values(f) =~= seq![f(rest[0])] + split_from(
                    s@,
                    e + 1 as int,
                ).map_values(f));
            } else {
                assert(rest =~= seq![rest[0]]);
            }
        }
        if e == n {
            proof {
                let f = |t: Seq<char>| trim(t);
                let g = |t: String| t@;
                assert(split_from(s@, start as int).map_values(f) =~= seq![
                    f(s@.subrange(start as int, e as int)),
                ]);
                assert(split_commas(s@).map_values(f) =~= out@.map_values(g));
            }
            return out;
        }
        start = e + 1;
    }
}


/// Saturating addition for the layout cursor.
pub open spec fn sat_add(x: u64, y: u64) -> u64 {
    if x + y > u64::MAX {
        u64::MAX
    } else {
        (x + y) as u64
    }
}

/// 66.7% of the width, rounded half up: the default label share when
/// there is no logo.
pub open spec fn label_share(w: u32) -> u32 {
    (((667 * (w as int)) + 500) / 1000) as u32
}

/// Whether the options carry a non-empty logo address.
pub open spec fn has_logo_url(o: SvgOptions) -> bool {
    match o.logo_url {
        Option::Some(u) => u@.len() > 0,
        Option::None => false,
    }
}

/// One layout pass over the tokens: each recognized token gets its width
/// and its center offset at the running cursor, and moves the cursor on.
pub open spec fn layout_css(
    tokens: Seq<Seq<char>>,
    x: u64,
    w: u32,
    has_logo: bool,
    logo_w: u32,
    section_w: u32,
) -> Seq<char>
    decreases tokens.len(),
{
    if tokens.len() == 0 {
        Seq::empty()
    } else {
        let t = tokens[0];
        if t == "label"@ {
            let sw: u32 = if has_logo {
                section_w
            } else {
                label_share(w)
            };
            seq![' ', ' '] + "--label-width: "@ + dec_digits(sw as nat) + "px;\n"@ + seq![' ', ' ']
                + "--label-offset-x: "@ + dec_digits(sat_add(x, (sw / 2) as u64) as nat) + "px;\n"@
                + layout_css(tokens.skip(1), sat_add(x, sw as u64), w, has_logo, logo_w, section_w)
        } else if t == "logo"@ {
            if has_logo {
                seq![' ', ' '] + "--logo-width: "@ + dec_digits(logo_w as nat) + "px;\n"@ + seq![
                    ' ',
                    ' ',
                ] + "--logo-offset-x: "@ + dec_digits(sat_add(x, (logo_w / 2) as u64) as nat)
                    + "px;\n"@ + layout_css(
                    tokens.skip(1),
                    sat_add(x, logo_w as u64),
                    w,
                    has_logo,
                    logo_w,
                    section_w,
                )
            } else {
                layout_css(tokens.skip(1), x, w, has_logo, logo_w, section_w)
            }
        } else if t == "counter"@ {
            let sw: u32 = if has_logo {
                section_w
            } else {
                (w - label_share(w)) as u32
            };
            seq![' ', ' '] + "--counter-width: "@ + dec_digits(sw as nat) + "px;\n"@ + seq![
                ' ',
                ' ',
            ] + "--counter-offset-x: "@ + dec_digits(sat_add(x, (sw / 2) as u64) as nat) + "px;\n"@
                + layout_css(tokens.skip(1), sat_add(x, sw as u64), w, has_logo, logo_w, section_w)
        } else {
            layout_css(tokens.skip(1), x, w, has_logo, logo_w, section_w)
        }
    }
}

/// The width block of the custom CSS: the overall width, then either the
/// automatic distribution over the ordered tokens or the explicit widths.
pub open spec fn width_section(o: SvgOptions) -> Seq<char> {
    match o.width {
        Option::None => px_prop("--label-width"@, o.label_width) + px_prop(
            "--counter-width"@,
            o.counter_width,
        ),
        Option::Some(w) => seq![' ', ' '] + "--width: "@ + dec_digits(w as nat) + "px;\n"@ + (
        if o.label_width is None && o.counter_width is None {
            let positions = match o.element_positions {
                Option::Some(p) => p@,
                Option::None => "label,logo,counter"@,
            };
            let tokens = split_commas(positions).map_values(|t: Seq<char>| trim(t));
            let has_logo = tokens.contains("logo"@) && has_logo_url(o);
            let logo_w: u32 = if has_logo {
                match o.logo_width {
                    Option::Some(lw) => lw,
                    Option::None => 30,
                }
            } else {
                0
            };
            let remaining: u32 = if logo_w <= w {
                (w - logo_w) as u32
            } else {
                0
            };
            layout_css(tokens, 0, w, has_logo, logo_w, remaining / 2)
        } else {
            px_prop("--label-width"@, o.label_width) + px_prop("--counter-width"@, o.counter_width)
        }),
    }
}

/// 66.7% of the width never exceeds the width.
proof fn lemma_label_share_fits(w: u32)
    ensures
        label_share(w) <= w,
        667 * (w as int) + 500 >= 0,
{
    assert((667 * (w as int) + 500) / 1000 <= w) by (nonlinear_arith);
    assert(667 * (w as int) >= 0) by (nonlinear_arith);
}

/// Appends one `name: value px` pair of the layout pass.
fn push_layout_pair(out: &mut String, wname: &str, oname: &str, sw: u32, x: u64)
    ensures
        final(out)@ == old(out)@ + (seq![' ', ' '] + wname@ + dec_digits(sw as nat) + "px;\n"@
            + seq![' ', ' '] + oname@ + dec_digits(sat_add(x, (sw / 2) as u64) as nat) + "px;\n"@),
{
    proof {
        reveal_strlit("  ");
        reveal_strlit("px;\n");
    }
    out.append("  ");
    out.append(wname);
    push_u64(out, sw as u64);
    out.append("px;\n");
    out.append("  ");
    out.append(oname);
    let half: u64 = (sw / 2) as u64;
    let off: u64 = if x <= u64::MAX - half {
        x + half
    } else {
        u64::MAX
    };
    proof {
        assert(off == sat_add(x, (sw / 2) as u64));
    }
    push_u64(out, off);
    out.append("px;\n");
    proof {
        assert(out@ =~= old(out)@ + (seq![' ', ' '] + wname@ + dec_digits(sw as nat) + "px;\n"@
            + seq![' ', ' '] + oname@ + dec_digits(sat_add(x, (sw / 2) as u64) as nat)
            + "px;\n"@));
    }
}

/// Appends the whole layout pass for the tokens.
fn push_layout(out: &mut String, tokens: &Vec<String>, w: u32, has_logo: bool, logo_w: u32, section_w: u32)
    requires
        section_w <= u32::MAX / 2,
    ensures
        final(out)@ == old(out)@ + layout_css(
            tokens@.map_values(|t: String| t@),
            0,
            w,
            has_logo,
            logo_w,
            section_w,
        ),
{
    let ghost tv = tokens@.map_values(|t: String| t@);
    let n = tokens.len();
    let mut i: usize = 0;
    let mut x: u64 = 0;
    proof {
        assert(tv.skip(0) =~= tv);
    }
    while i < n
        invariant
            n == tokens@.len(),
            n == tv.len(),
            i <= n,
            tv == tokens@.map_values(|t: String| t@),
            section_w <= u32::MAX / 2,
            out@ + layout_css(tv.skip(i as int), x, w, has_logo, logo_w, section_w) == old(out)@
                + layout_css(tv, 0, w, has_logo, logo_w, section_w),
        decreases n - i,
    {
        let t = &tokens[i];
        proof {
            assert(tv.skip(i as int)[0] == tv[i as int]);
            assert(tv.skip(i as int).skip(1) =~= tv.skip(i + 1 as int));
        }
        if crate::strtext::str_eq(t.as_str(), "label") {
            let sw: u32 = if has_logo {
                section_w
            } else {
                proof {
                    lemma_label_share_fits(w);
                }
                (((667u64 * (w as u64)) + 500) / 1000) as u32
            };
            push_layout_pair(out, "--label-width: ", "--label-offset-x: ", sw, x);
            x = if x <= u64::MAX - (sw as u64) {
                x + (sw as u64)
            } else {
                u64::MAX
            };
        } else if crate::strtext::str_eq(t.as_str(), "logo") {
            if has_logo {
                push_layout_pair(out, "--logo-width: ", "--logo-offset-x: ", logo_w, x);
                x = if x <= u64::MAX - (logo_w as u64) {
                    x + (logo_w as u64)
                } else {
                    u64::MAX
                };
            }
        } else if crate::strtext::str_eq(t.as_str(), "counter") {
            let sw: u32 = if has_logo {
                section_w
            } else {
                proof {
                    lemma_label_share_fits(w);
                }
                w - ((((667u64 * (w as u64)) + 500) / 1000) as u32)
            };
            push_layout_pair(out, "--counter-width: ", "--counter-offset-x: ", sw, x);
            x = if x <= u64::MAX - (sw as u64) {
                x + (sw as u64)
            } else {
                u64::MAX
            };
        }
        i += 1;
    }
    proof {
        assert(layout_css(tv.skip(n as int), x, w, has_logo, logo_w, section_w)
            =~= Seq::<char>::empty());
        assert(out@ + Seq::<char>::empty() =~= out@);
    }
}


/// Whether the options carry a positive border width.
pub open spec fn has_border(o: SvgOptions) -> bool {
    match o.border_width {
        Option::Some(b) => b > 0,
        Option::None => false,
    }
}

/// The logo pixel size for a badge of height `h`: 70% of the height for
/// tall badges, 80% for the default height and below, rounded half up.
pub open spec fn logo_size_of(h: u32) -> u32 {
    if h > 20 {
        (((7 * (h as int)) + 5) / 10) as u32
    } else {
        (((8 * (h as int)) + 5) / 10) as u32
    }
}

/// The inner mask radius for a border radius `br` over a border of width
/// `bw`: pulled in by half the border, rounded half up, never below zero.
pub open spec fn inner_mask_radius(br: u32, bw: u32) -> u32 {
    if 2 * (br as int) > bw as int {
        (((2 * (br as int)) - (bw as int) + 1) / 2) as u32
    } else {
        0
    }
}

/// The radius block: the variable plus the inner mask rule.
pub open spec fn radius_section(o: SvgOptions) -> Seq<char> {
    match o.radius {
        Option::Some(r) => seq![' ', ' '] + "--radius: "@ + dec_digits(r as nat) + "px;\n"@
            + ".mask-rect { rx: "@ + dec_digits(r as nat) + "px; ry: "@ + dec_digits(r as nat)
            + "px; }\n"@,
        Option::None => Seq::empty(),
    }
}

/// The deprecated unified text color, applied only where no specific
/// color was set.
pub open spec fn text_fallback(o: SvgOptions) -> Seq<char> {
    match o.text_color {
        Option::Some(tc) => (if o.label_color is None {
            seq![' ', ' '] + "--label-color: "@ + normalize_color(tc@) + seq![';', '\n']
        } else {
            Seq::empty()
        }) + (if o.counter_color is None {
            seq![' ', ' '] + "--counter-color: "@ + normalize_color(tc@) + seq![';', '\n']
        } else {
            Seq::empty()
        }),
        Option::None => Seq::empty(),
    }
}

/// The deprecated unified background color, applied only where no
/// specific background was set.
pub open spec fn background_fallback(o: SvgOptions) -> Seq<char> {
    match o.background_color {
        Option::Some(bc) => (if o.background_label is None {
            seq![' ', ' '] + "--background-label: "@ + normalize_color(bc@) + seq![';', '\n']
        } else {
            Seq::empty()
        }) + (if o.background_counter is None {
            seq![' ', ' '] + "--background-counter: "@ + normalize_color(bc@) + seq![';', '\n']
        } else {
            Seq::empty()
        }),
        Option::None => Seq::empty(),
    }
}

/// The fixed logo positioning rules, present when a logo address is.
pub open spec fn logo_section(o: SvgOptions) -> Seq<char> {
    if has_logo_url(o) {
        let lw: u32 = match o.logo_width {
            Option::Some(x) => x,
            Option::None => 30,
        };
        let h0: u32 = match o.height {
            Option::Some(x) => x,
            Option::None => 20,
        };
        "\n.logo-rect {\n  width: var(--logo-width, 30px);\n  height: var(--height);\n  fill: var(--background-logo, transparent);\n  transform: translateX(calc(var(--logo-offset-x, 50px) - var(--logo-width, 30px) / 2));\n}\n.logo-image {\n  transform: translate(calc(var(--logo-offset-x, 50px) - "@
            + dec_digits((lw / 2) as nat) + "px), "@ + dec_digits(
            (((h0 - logo_size_of(h0)) as int) / 2) as nat,
        ) + "px);\n}\n"@
    } else {
        Seq::empty()
    }
}

/// The border corner rules: the given radius, or three pixels when a
/// border is present without one, with the matching inner mask radius.
pub open spec fn border_radius_section(o: SvgOptions) -> Seq<char> {
    let bw: u32 = match o.border_width {
        Option::Some(b) => b,
        Option::None => 1,
    };
    match o.border_radius {
        Option::Some(br) => ".border-rect { rx: "@ + dec_digits(br as nat) + "px; ry: "@
            + dec_digits(br as nat) + "px; }\n"@ + ".mask-rect { rx: "@ + dec_digits(
            inner_mask_radius(br, bw) as nat,
        ) + "px; ry: "@ + dec_digits(inner_mask_radius(br, bw) as nat) + "px; }\n"@,
        Option::None => if has_border(o) {
            ".border-rect { rx: 3px; ry: 3px; }\n"@ + ".mask-rect { rx: "@ + dec_digits(
                inner_mask_radius(3, bw) as nat,
            ) + "px; ry: "@ + dec_digits(inner_mask_radius(3, bw) as nat) + "px; }\n"@
        } else {
            Seq::empty()
        },
    }
}

/// The font weight rules: the variable and a direct rule on the text.
pub open spec fn font_weight_section(o: SvgOptions) -> Seq<char> {
    match o.font_weight {
        Option::Some(fw) => ":root { --font-weight: "@ + fw@ + "; }\n"@
            + ".text-group { font-weight: "@ + fw@ + " !important; }\n"@,
        Option::None => Seq::empty(),
    }
}

/// The border stroke rule, with the given color or a default gray.
pub open spec fn border_stroke_section(o: SvgOptions) -> Seq<char> {
    match o.border_width {
        Option::Some(bw) => if bw > 0 {
            ".border-rect { fill: none; stroke: "@ + (match o.border_color {
                Option::Some(c) => normalize_color(c@),
                Option::None => "#cccccc"@,
            }) + "; stroke-width: "@ + dec_digits(bw as nat) + "; }\n"@
        } else {
            Seq::empty()
        },
        Option::None => Seq::empty(),
    }
}

/// The vertical centering override for a non-default height: half the
/// height plus 35% of the font size, rounded half up.
pub open spec fn centering_section(o: SvgOptions) -> Seq<char> {
    match o.height {
        Option::Some(h) => if h != 20 {
            let fs: u32 = match o.font_size {
                Option::Some(x) => x,
                Option::None => 11,
            };
            let y = (((50 * (h as int)) + (35 * (fs as int)) + 50) / 100) as nat;
            ":root { --label-offset-y: "@ + dec_digits(y) + "px; --counter-offset-y: "@
                + dec_digits(y) + "px; }\n"@
        } else {
            Seq::empty()
        },
        Option::None => Seq::empty(),
    }
}

/// The free-form style text, appended verbatim at the very end.
pub open spec fn style_section(o: SvgOptions) -> Seq<char> {
    match o.style {
        Option::Some(st) => st@,
        Option::None => Seq::empty(),
    }
}

/// The whole custom CSS for one options bag: the `:root` block of
/// variables, then the rule blocks, in the documented order.
pub open spec fn css_of(o: SvgOptions) -> Seq<char> {
    ":root {\n"@ + width_section(o) + px_prop("--height"@, o.height) + radius_section(o)
        + color_prop("--grad-stop1-color"@, opt_view(o.grad_stop1_color)) + verbatim_prop(
        "--grad-stop1-opacity"@,
        opt_view(o.grad_stop1_opacity),
    ) + verbatim_prop("--grad-stop2-opacity"@, opt_view(o.grad_stop2_opacity)) + verbatim_prop(
        "--font-family"@,
        opt_view(o.font_family),
    ) + px_prop("--font-size"@, o.font_size) + px_prop("--label-offset-x"@, o.label_offset_x)
        + px_prop("--label-offset-y"@, o.label_offset_y) + px_prop(
        "--counter-offset-x"@,
        o.counter_offset_x,
    ) + px_prop("--counter-offset-y"@, o.counter_offset_y) + color_prop(
        "--shadow-fill"@,
        opt_view(o.shadow_fill),
    ) + verbatim_prop("--shadow-opacity"@, opt_view(o.shadow_opacity)) + color_prop(
        "--background-label"@,
        opt_view(o.background_label),
    ) + color_prop("--background-counter"@, opt_view(o.background_counter)) + color_prop(
        "--label-color"@,
        opt_view(o.label_color),
    ) + color_prop("--counter-color"@, opt_view(o.counter_color)) + text_fallback(o)
        + background_fallback(o) + "}\n"@ + logo_section(o) + border_radius_section(o)
        + font_weight_section(o) + border_stroke_section(o) + centering_section(o)
        + style_section(o)
}

/// Appends the width block.
fn push_width_section(out: &mut String, o: &SvgOptions)
    ensures
        final(out)@ == old(out)@ + width_section(*o),
{
    proof {
        reveal_strlit("  ");
        reveal_strlit("--width: ");
        reveal_strlit("px;\n");
    }
    match o.width {
        Some(w) => {
            out.append("  ");
            out.append("--width: ");
            push_u64(out, w as u64);
            out.append("px;\n");
            if o.label_width.is_none() && o.counter_width.is_none() {
                let positions: &str = match &o.element_positions {
                    Some(p) => p.as_str(),
                    None => "label,logo,counter",
                };
                let tokens = split_trimmed(positions);
                let mut has_logo_token = false;
                let mut k: usize = 0;
                let ghost tv = tokens@.map_values(|t: String| t@);
                while k < tokens.len()
                    invariant
                        k <= tokens@.len(),
                        tv == tokens@.map_values(|t: String| t@),
                        has_logo_token == exists|q: int|
                            0 <= q < k && #[trigger] tv[q] == "logo"@,
                    decreases tokens@.len() - k,
                {
                    if crate::strtext::str_eq(tokens[k].as_str(), "logo") {
                        has_logo_token = true;
                        proof {
                            assert(tv[k as int] == "logo"@);
                        }
                    }
                    k += 1;
                }
                proof {
                    if has_logo_token {
                        assert(tv.contains("logo"@));
                    }
                    if tv.contains("logo"@) {
                        let q = choose|q: int| 0 <= q < tv.len() && tv[q] == "logo"@;
                        assert(0 <= q < tokens@.len() && #[trigger] tv[q] == "logo"@);
                    }
                }
                let url_nonempty = match &o.logo_url {
                    Some(u) => u.unicode_len() > 0,
                    None => false,
                };
                let has_logo = has_logo_token && url_nonempty;
                let logo_w: u32 = if has_logo {
                    match o.logo_width {
                        Some(lw) => lw,
                        None => 30,
                    }
                } else {
                    0
                };
                let remaining: u32 = if logo_w <= w {
                    w - logo_w
                } else {
                    0
                };
                push_layout(out, &tokens, w, has_logo, logo_w, remaining / 2);
            } else {
                push_px_prop(out, "--label-width", o.label_width);
                push_px_prop(out, "--counter-width", o.counter_width);
            }
            proof {
                assert(out@ =~= old(out)@ + width_section(*o));
            }
        },
        None => {
            push_px_prop(out, "--label-width", o.label_width);
            push_px_prop(out, "--counter-width", o.counter_width);
            proof {
                assert(out@ =~= old(out)@ + width_section(*o));
            }
        },
    }
}

/// Appends the radius block.
fn push_radius_section(out: &mut String, o: &SvgOptions)
    ensures
        final(out)@ == old(out)@ + radius_section(*o),
{
    proof {
        reveal_strlit("  ");
        reveal_strlit("--radius: ");
        reveal_strlit("px;\n");
        reveal_strlit(".mask-rect { rx: ");
        reveal_strlit("px; ry: ");
        reveal_strlit("px; }\n");
    }
    match o.radius {
        Some(r) => {
            out.append("  ");
            out.append("--radius: ");
            push_u64(out, r as u64);
            out.append("px;\n");
            out.append(".mask-rect { rx: ");
            push_u64(out, r as u64);
            out.append("px; ry: ");
            push_u64(out, r as u64);
            out.append("px; }\n");
            proof {
                assert(out@ =~= old(out)@ + radius_section(*o));
            }
        },
        None => {},
    }
}

/// Appends the two deprecated fallbacks, text color then background.
#[verifier::rlimit(100)]
fn push_fallbacks(out: &mut String, o: &SvgOptions)
    ensures
        final(out)@ == old(out)@ + text_fallback(*o) + background_fallback(*o),
{
    proof {
        reveal_strlit("  ");
        reveal_strlit("--label-color: ");
        reveal_strlit("--counter-color: ");
        reveal_strlit("--background-label: ");
        reveal_strlit("--background-counter: ");
        reveal_strlit(";\n");
    }
    let ghost mid = old(out)@ + text_fallback(*o);
    match &o.text_color {
        Some(tc) => {
            if o.label_color.is_none() {
                out.append("  ");
                out.append("--label-color: ");
                push_color(out, tc.as_str());
                out.append(";\n");
            }
            if o.counter_color.is_none() {
                out.append("  ");
                out.append("--counter-color: ");
                push_color(out, tc.as_str());
                out.append(";\n");
            }
            proof {
                assert(out@ =~= mid);
            }
        },
        None => {
            proof {
                assert(out@ =~= mid);
            }
        },
    }
    match &o.background_color {
        Some(bc) => {
            if o.background_label.is_none() {
                out.append("  ");
                out.append("--background-label: ");
                push_color(out, bc.as_str());
                out.append(";\n");
            }
            if o.background_counter.is_none() {
                out.append("  ");
                out.append("--background-counter: ");
                push_color(out, bc.as_str());
                out.append(";\n");
            }
            proof {
                assert(out@ =~= mid + background_fallback(*o));
            }
        },
        None => {
            proof {
                assert(out@ =~= mid + background_fallback(*o));
            }
        },
    }
}


/// Appends the logo positioning rules.
fn push_logo_section(out: &mut String, o: &SvgOptions)
    ensures
        final(out)@ == old(out)@ + logo_section(*o),
{
    proof {
        reveal_strlit("\n.logo-rect {\n  width: var(--logo-width, 30px);\n  height: var(--height);\n  fill: var(--background-logo, transparent);\n  transform: translateX(calc(var(--logo-offset-x, 50px) - var(--logo-width, 30px) / 2));\n}\n.logo-image {\n  transform: translate(calc(var(--logo-offset-x, 50px) - ");
        reveal_strlit("px), ");
        reveal_strlit("px);\n}\n");
    }
    let url_nonempty = match &o.logo_url {
        Some(u) => u.unicode_len() > 0,
        None => false,
    };
    if url_nonempty {
        let lw: u32 = match o.logo_width {
            Some(x) => x,
            None => 30,
        };
        let h0: u32 = match o.height {
            Some(x) => x,
            None => 20,
        };
        let ls: u32 = if h0 > 20 {
            (((7u64 * (h0 as u64)) + 5) / 10) as u32
        } else {
            (((8u64 * (h0 as u64)) + 5) / 10) as u32
        };
        proof {
            assert(ls == logo_size_of(h0));
            assert(logo_size_of(h0) <= h0) by {
                assert(((7 * (h0 as int)) + 5) / 10 <= h0 as int) by (nonlinear_arith);
                assert(((8 * (h0 as int)) + 5) / 10 <= h0 as int) by (nonlinear_arith);
                assert(((7 * (h0 as int)) + 5) / 10 >= 0) by (nonlinear_arith);
                assert(((8 * (h0 as int)) + 5) / 10 >= 0) by (nonlinear_arith);
            }
        }
        out.append("\n.logo-rect {\n  width: var(--logo-width, 30px);\n  height: var(--height);\n  fill: var(--background-logo, transparent);\n  transform: translateX(calc(var(--logo-offset-x, 50px) - var(--logo-width, 30px) / 2));\n}\n.logo-image {\n  transform: translate(calc(var(--logo-offset-x, 50px) - ");
        push_u64(out, (lw / 2) as u64);
        out.append("px), ");
        push_u64(out, ((h0 - ls) / 2) as u64);
        out.append("px);\n}\n");
        proof {
            assert(out@ =~= old(out)@ + logo_section(*o));
        }
    }
}

/// The inner mask radius, executably.
fn inner_mask_radius_exec(br: u32, bw: u32) -> (r: u32)
    ensures
        r == inner_mask_radius(br, bw),
{
    let t: u64 = 2u64 * (br as u64);
    if t > bw as u64 {
        let v: u64 = (t - (bw as u64) + 1) / 2;
        proof {
            assert(v <= br as u64);
        }
        v as u32
    } else {
        0
    }
}

/// Appends the border corner rules.
fn push_border_radius_section(out: &mut String, o: &SvgOptions)
    ensures
        final(out)@ == old(out)@ + border_radius_section(*o),
{
    proof {
        reveal_strlit(".border-rect { rx: ");
        reveal_strlit("px; ry: ");
        reveal_strlit("px; }\n");
        reveal_strlit(".mask-rect { rx: ");
        reveal_strlit(".border-rect { rx: 3px; ry: 3px; }\n");
    }
    let bw: u32 = match o.border_width {
        Some(b) => b,
        None => 1,
    };
    match o.border_radius {
        Some(br) => {
            let inner = inner_mask_radius_exec(br, bw);
            out.append(".border-rect { rx: ");
            push_u64(out, br as u64);
            out.append("px; ry: ");
            push_u64(out, br as u64);
            out.append("px; }\n");
            out.append(".mask-rect { rx: ");
            push_u64(out, inner as u64);
            out.append("px; ry: ");
            push_u64(out, inner as u64);
            out.append("px; }\n");
            proof {
                assert(out@ =~= old(out)@ + border_radius_section(*o));
            }
        },
        None => {
            let bordered = match o.border_width {
                Some(b) => b > 0,
                None => false,
            };
            if bordered {
                let inner = inner_mask_radius_exec(3, bw);
                out.append(".border-rect { rx: 3px; ry: 3px; }\n");
                out.append(".mask-rect { rx: ");
                push_u64(out, inner as u64);
                out.append("px; ry: ");
                push_u64(out, inner as u64);
                out.append("px; }\n");
                proof {
                    assert(out@ =~= old(out)@ + border_radius_section(*o));
                }
            }
        },
    }
}

/// Appends the font weight rules.
fn push_font_weight_section(out: &mut String, o: &SvgOptions)
    ensures
        final(out)@ == old(out)@ + font_weight_section(*o),
{
    proof {
        reveal_strlit(":root { --font-weight: ");
        reveal_strlit("; }\n");
        reveal_strlit(".text-group { font-weight: ");
        reveal_strlit(" !important; }\n");
    }
    match &o.font_weight {
        Some(fw) => {
            out.append(":root { --font-weight: ");
            out.append(fw.as_str());
            out.append("; }\n");
            out.append(".text-group { font-weight: ");
            out.append(fw.as_str());
            out.append(" !important; }\n");
            proof {
                assert(out@ =~= old(out)@ + font_weight_section(*o));
            }
        },
        None => {},
    }
}

/// Appends the border stroke rule.
fn push_border_stroke_section(out: &mut String, o: &SvgOptions)
    ensures
        final(out)@ == old(out)@ + border_stroke_section(*o),
{
    proof {
        reveal_strlit(".border-rect { fill: none; stroke: ");
        reveal_strlit("#cccccc");
        reveal_strlit("; stroke-width: ");
        reveal_strlit("; }\n");
    }
    match o.border_width {
        Some(bw) => {
            if bw > 0 {
                out.append(".border-rect { fill: none; stroke: ");
                match &o.border_color {
                    Some(c) => {
                        push_color(out, c.as_str());
                    },
                    None => {
                        out.append("#cccccc");
                    },
                }
                out.append("; stroke-width: ");
                push_u64(out, bw as u64);
                out.append("; }\n");
                proof {
                    assert(out@ =~= old(out)@ + border_stroke_section(*o));
                }
            }
        },
        None => {},
    }
}

/// Appends the vertical centering override.
fn push_centering_section(out: &mut String, o: &SvgOptions)
    ensures
        final(out)@ == old(out)@ + centering_section(*o),
{
    proof {
        reveal_strlit(":root { --label-offset-y: ");
        reveal_strlit("px; --counter-offset-y: ");
        reveal_strlit("px; }\n");
    }
    match o.height {
        Some(h) => {
            if h != 20 {
                let fs: u32 = match o.font_size {
                    Some(x) => x,
                    None => 11,
                };
                let y: u64 = ((50u64 * (h as u64)) + (35u64 * (fs as u64)) + 50) / 100;
                out.append(":root { --label-offset-y: ");
                push_u64(out, y);
                out.append("px; --counter-offset-y: ");
                push_u64(out, y);
                out.append("px; }\n");
                proof {
                    assert(out@ =~= old(out)@ + centering_section(*o));
                }
            }
        },
        None => {},
    }
}

/// The per-instance CSS for an options bag: a `:root` block of custom
/// properties and supplementary rule blocks, in the documented order; the
/// empty string when no options were given.
pub fn build_custom_css(options: Option<SvgOptions>) -> (r: String)
    ensures
        r@ == match options {
            Option::Some(o) => css_of(o),
            Option::None => Seq::<char>::empty(),
        },
{
    let mut out = String::new();
    let opts = match options {
        Some(o) => o,
        None => {
            return out;
        },
    };
    proof {
        reveal_strlit(":root {\n");
        reveal_strlit("}\n");
    }
    out.append(":root {\n");
    push_width_section(&mut out, &opts);
    push_px_prop(&mut out, "--height", opts.height);
    push_radius_section(&mut out, &opts);
    push_color_prop(&mut out, "--grad-stop1-color", &opts.grad_stop1_color);
    push_verbatim_prop(&mut out, "--grad-stop1-opacity", &opts.grad_stop1_opacity);
    push_verbatim_prop(&mut out, "--grad-stop2-opacity", &opts.grad_stop2_opacity);
    push_verbatim_prop(&mut out, "--font-family", &opts.font_family);
    push_px_prop(&mut out, "--font-size", opts.font_size);
    push_px_prop(&mut out, "--label-offset-x", opts.label_offset_x);
    push_px_prop(&mut out, "--label-offset-y", opts.label_offset_y);
    push_px_prop(&mut out, "--counter-offset-x", opts.counter_offset_x);
    push_px_prop(&mut out, "--counter-offset-y", opts.counter_offset_y);
    push_color_prop(&mut out, "--shadow-fill", &opts.shadow_fill);
    push_verbatim_prop(&mut out, "--shadow-opacity", &opts.shadow_opacity);
    push_color_prop(&mut out, "--background-label", &opts.background_label);
    push_color_prop(&mut out, "--background-counter", &opts.background_counter);
    push_color_prop(&mut out, "--label-color", &opts.label_color);
    push_color_prop(&mut out, "--counter-color", &opts.counter_color);
    push_fallbacks(&mut out, &opts);
    out.append("}\n");
    push_logo_section(&mut out, &opts);
    push_border_radius_section(&mut out, &opts);
    push_font_weight_section(&mut out, &opts);
    push_border_stroke_section(&mut out, &opts);
    push_centering_section(&mut out, &opts);
    match &opts.style {
        Some(st) => {
            out.append(st.as_str());
        },
        None => {},
    }
    proof {
        assert(out@ =~= css_of(opts));
    }
    out
}


/// The decimal text of a possibly negative value.
pub open spec fn int_text(x: int) -> Seq<char> {
    if x < 0 {
        seq!['-'] + dec_digits((-x) as nat)
    } else {
        dec_digits(x as nat)
    }
}

/// Half of `bw` as pixel text: the whole part, and `.5` when odd.
pub open spec fn half_text(bw: u32) -> Seq<char> {
    dec_digits((bw / 2) as nat) + (if bw % 2 == 1 {
        seq!['.', '5']
    } else {
        Seq::<char>::empty()
    })
}

/// The logo markup of the document, present when a logo address is.
pub open spec fn logo_element(o: SvgOptions, h: u32) -> Seq<char> {
    match o.logo_url {
        Option::Some(url) => if url@.len() > 0 {
            "<rect class=\"logo-rect\"/><image href=\""@ + url@ + "\" xlink:href=\""@ + url@
                + "\" class=\"logo-image\" width=\""@ + dec_digits(logo_size_of(h) as nat)
                + "\" height=\""@ + dec_digits(logo_size_of(h) as nat)
                + "\" preserveAspectRatio=\"xMidYMid meet\"/>"@
        } else {
            Seq::empty()
        },
        Option::None => Seq::empty(),
    }
}

/// The border markup of the document, inset by half the border width,
/// present when the border width is positive.
pub open spec fn border_element(o: SvgOptions, w: u32, h: u32) -> Seq<char> {
    match o.border_width {
        Option::Some(bw) => if bw > 0 {
            "<rect class=\"border-rect\" width=\""@ + int_text((w as int) - (bw as int))
                + "\" height=\""@ + int_text((h as int) - (bw as int)) + "\" x=\""@ + half_text(bw)
                + "\" y=\""@ + half_text(bw) + "\"/>"@
        } else {
            Seq::empty()
        },
        Option::None => Seq::empty(),
    }
}

/// The whole SVG document: the fixed skeleton with the given CSS embedded
/// verbatim, the optional logo and border markup, and the label and count
/// each twice, once for the drop shadow and once visible.
pub open spec fn svg_doc(
    label: Seq<char>,
    count: u64,
    css: Seq<char>,
    w: u32,
    h: u32,
    o: Option<SvgOptions>,
) -> Seq<char> {
    let logo = match o {
        Option::Some(x) => logo_element(x, h),
        Option::None => Seq::empty(),
    };
    let border = match o {
        Option::Some(x) => border_element(x, w, h),
        Option::None => Seq::empty(),
    };
    "<?xml version=\"1.0\" encoding=\"UTF-8\"?>\n<svg width=\""@ + dec_digits(w as nat)
        + "\" height=\""@ + dec_digits(h as nat)
        + "\" xmlns=\"http://www.w3.org/2000/svg\" xmlns:xlink=\"http://www.w3.org/1999/xlink\" class=\"svg-counter\">\n<style type=\"text/css\"><![CDATA[\n"@
        + css
        + "\n]]></style>\n<defs>\n  <linearGradient id=\"grad\" x2=\"0\" y2=\"100%\">\n    <stop offset=\"0\" stop-color=\"var(--grad-stop1-color)\" stop-opacity=\"var(--grad-stop1-opacity)\"/>\n    <stop offset=\"1\" stop-opacity=\"var(--grad-stop2-opacity)\"/>\n  </linearGradient>\n  <mask id=\"mask\">\n    <rect class=\"mask-rect\" fill=\"#fff\"/>\n  </mask>\n</defs>\n<g mask=\"url(#mask)\">\n  <rect class=\"left-rect\"/>\n  <rect class=\"right-rect\"/>\n  <rect class=\"overlay-rect\" fill=\"url(#grad)\"/>\n  "@
        + logo + "\n</g>\n"@ + border + "\n<g class=\"text-group\">\n  <text class=\"label-shadow\">"@
        + label + "</text>\n  <text class=\"label\">"@ + label
        + "</text>\n  <text class=\"count-shadow\">"@ + dec_digits(count as nat)
        + "</text>\n  <text class=\"count\">"@ + dec_digits(count as nat)
        + "</text>\n</g>\n</svg>"@
}

/// The view of the borrowed options.
pub open spec fn opts_view(o: Option<&SvgOptions>) -> Option<SvgOptions> {
    match o {
        Option::Some(x) => Some(*x),
        Option::None => None,
    }
}

/// Appends the decimal text of `a - b`, which may be negative.
fn push_int_diff(out: &mut String, a: u32, b: u32)
    ensures
        final(out)@ == old(out)@ + int_text((a as int) - (b as int)),
{
    if a >= b {
        push_u64(out, (a - b) as u64);
    } else {
        proof {
            reveal_strlit("-");
            assert("-"@ =~= seq!['-']);
        }
        out.append("-");
        push_u64(out, (b - a) as u64);
        proof {
            assert(out@ =~= old(out)@ + int_text((a as int) - (b as int)));
        }
    }
}

/// Appends half of `bw` as pixel text.
fn push_half(out: &mut String, bw: u32)
    ensures
        final(out)@ == old(out)@ + half_text(bw),
{
    push_u64(out, (bw / 2) as u64);
    if bw % 2 == 1 {
        proof {
            reveal_strlit(".5");
            assert(".5"@ =~= seq!['.', '5']);
        }
        out.append(".5");
    }
    proof {
        assert(out@ =~= old(out)@ + half_text(bw));
    }
}

/// Appends the logo markup, if any.
fn push_logo_element(out: &mut String, o: &SvgOptions, h: u32)
    ensures
        final(out)@ == old(out)@ + logo_element(*o, h),
{
    match &o.logo_url {
        Some(url) => {
            if url.unicode_len() > 0 {
                let ls: u32 = if h > 20 {
                    (((7u64 * (h as u64)) + 5) / 10) as u32
                } else {
                    (((8u64 * (h as u64)) + 5) / 10) as u32
                };
                proof {
                    assert(((7 * (h as int)) + 5) / 10 <= h as int) by (nonlinear_arith);
                    assert(((8 * (h as int)) + 5) / 10 <= h as int) by (nonlinear_arith);
                    assert(((7 * (h as int)) + 5) / 10 >= 0) by (nonlinear_arith);
                    assert(((8 * (h as int)) + 5) / 10 >= 0) by (nonlinear_arith);
                    assert(ls == logo_size_of(h));
                }
                out.append("<rect class=\"logo-rect\"/><image href=\"");
                out.append(url.as_str());
                out.append("\" xlink:href=\"");
                out.append(url.as_str());
                out.append("\" class=\"logo-image\" width=\"");
                push_u64(out, ls as u64);
                out.append("\" height=\"");
                push_u64(out, ls as u64);
                out.append("\" preserveAspectRatio=\"xMidYMid meet\"/>");
                proof {
                    assert(out@ =~= old(out)@ + logo_element(*o, h));
                }
            }
        },
        None => {},
    }
}

/// Appends the border markup, if any.
fn push_border_element(out: &mut String, o: &SvgOptions, w: u32, h: u32)
    ensures
        final(out)@ == old(out)@ + border_element(*o, w, h),
{
    match o.border_width {
        Some(bw) => {
            if bw > 0 {
                out.append("<rect class=\"border-rect\" width=\"");
                push_int_diff(out, w, bw);
                out.append("\" height=\"");
                push_int_diff(out, h, bw);
                out.append("\" x=\"");
                push_half(out, bw);
                out.append("\" y=\"");
                push_half(out, bw);
                out.append("\"/>");
                proof {
                    assert(out@ =~= old(out)@ + border_element(*o, w, h));
                }
            }
        },
        None => {},
    }
}

/// The SVG counter image: the given CSS embedded in the fixed skeleton,
/// sized `width` by `height`, the label on the left and the count on the
/// right, with optional logo and border decorations.
pub fn generate_svg(
    label: &str,
    count: u64,
    css: &str,
    width: u32,
    height: u32,
    options: Option<&SvgOptions>,
) -> (r: String)
    ensures
        r@ == svg_doc(label@, count, css@, width, height, opts_view(options)),
{
    let mut out = String::new();
    out.append("<?xml version=\"1.0\" encoding=\"UTF-8\"?>\n<svg width=\"");
    push_u64(&mut out, width as u64);
    out.append("\" height=\"");
    push_u64(&mut out, height as u64);
    out.append(
        "\" xmlns=\"http://www.w3.org/2000/svg\" xmlns:xlink=\"http://www.w3.org/1999/xlink\" class=\"svg-counter\">\n<style type=\"text/css\"><![CDATA[\n",
    );
    out.append(css);
    out.append(
        "\n]]></style>\n<defs>\n  <linearGradient id=\"grad\" x2=\"0\" y2=\"100%\">\n    <stop offset=\"0\" stop-color=\"var(--grad-stop1-color)\" stop-opacity=\"var(--grad-stop1-opacity)\"/>\n    <stop offset=\"1\" stop-opacity=\"var(--grad-stop2-opacity)\"/>\n  </linearGradient>\n  <mask id=\"mask\">\n    <rect class=\"mask-rect\" fill=\"#fff\"/>\n  </mask>\n</defs>\n<g mask=\"url(#mask)\">\n  <rect class=\"left-rect\"/>\n  <rect class=\"right-rect\"/>\n  <rect class=\"overlay-rect\" fill=\"url(#grad)\"/>\n  ",
    );
    match options {
        Some(o) => {
            push_logo_element(&mut out, o, height);
        },
        None => {},
    }
    out.append("\n</g>\n");
    match options {
        Some(o) => {
            push_border_element(&mut out, o, width, height);
        },
        None => {},
    }
    out.append("\n<g class=\"text-group\">\n  <text class=\"label-shadow\">");
    out.append(label);
    out.append("</text>\n  <text class=\"label\">");
    out.append(label);
    out.append("</text>\n  <text class=\"count-shadow\">");
    push_u64(&mut out, count);
    out.append("</text>\n  <text class=\"count\">");
    push_u64(&mut out, count);
    out.append("</text>\n</g>\n</svg>");
    proof {
        assert(out@ =~= svg_doc(label@, count, css@, width, height, opts_view(options)));
    }
    out
}

} // verus!
