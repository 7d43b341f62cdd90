use visit_counter::webtypes::{ApiService, AppRoute, AppState, BadgeConfig, Theme};

#[test]
fn theme_tokens_and_toggle() {
    assert_eq!(Theme::Light.as_str(), "light");
    assert_eq!(Theme::Dark.as_str(), "dark");
    assert_eq!(Theme::Light.toggle(), Theme::Dark);
    assert_eq!(Theme::Dark.toggle(), Theme::Light);
    assert_eq!(Theme::default(), Theme::Dark);
    assert_eq!(Theme::from("light"), Theme::Light);
    assert_eq!(Theme::from("dark"), Theme::Dark);
    assert_eq!(Theme::from("anything else"), Theme::Dark);
}

#[test]
fn app_state_starts_signed_out_at_home() {
    let state = AppState::default();
    assert_eq!(state.current_route, AppRoute::Home);
    assert_eq!(state.theme, Theme::Dark);
    assert!(state.auth_token.is_none());
    assert!(!state.is_authenticated);
}

#[test]
fn badge_config_defaults_match_the_stock_badge() {
    let config = BadgeConfig::default();
    assert_eq!(config.label, "Visits");
    assert_eq!(config.width, 150);
    assert_eq!(config.height, 20);
    assert_eq!(config.font_size, 11);
    assert_eq!(config.font_weight, "normal");
    assert_eq!(config.background_counter, "#DC26B6");
    assert_eq!(config.border_width, 0);
    assert_eq!(config.border_radius, 3);
    assert_eq!(config.logo_width, 30);
    assert_eq!(config.element_positions, "label,logo,counter");
}

#[test]
fn stock_badge_url_has_no_query() {
    let mut config = BadgeConfig::default();
    config.name = "site".to_string();
    assert_eq!(ApiService::build_badge_url(&config), "/counter/site/svg");
}

#[test]
fn changed_knobs_become_query_parameters() {
    let mut config = BadgeConfig::default();
    config.name = "site".to_string();
    config.label = "Views".to_string();
    config.width = 200;
    config.height = 30;
    config.style = ".x{}".to_string();
    assert_eq!(
        ApiService::build_badge_url(&config),
        "/counter/site/svg?label=Views&width=200&height=30&style=.x%7B%7D"
    );
}

#[test]
fn names_are_encoded_for_the_address() {
    let mut config = BadgeConfig::default();
    config.name = "my page".to_string();
    assert_eq!(ApiService::build_badge_url(&config), "/counter/my%20page/svg");
}

#[test]
fn empty_label_adds_no_parameter() {
    let mut config = BadgeConfig::default();
    config.name = "n".to_string();
    config.label = String::new();
    config.height = 25;
    assert_eq!(ApiService::build_badge_url(&config), "/counter/n/svg?height=25");
}

#[test]
fn api_key_is_granted_only_on_a_match() {
    assert!(visit_counter::webtypes::ApiKey::check(Some("secret"), "secret").is_some());
    assert!(visit_counter::webtypes::ApiKey::check(Some("wrong"), "secret").is_none());
    assert!(visit_counter::webtypes::ApiKey::check(None, "secret").is_none());
}

#[test]
fn wire_types_carry_their_fields() {
    let counter = visit_counter::webtypes::CounterResponse { name: "n".to_string(), count: 3 };
    assert_eq!(counter.name, "n");
    assert_eq!(counter.count, 3);
    let set = visit_counter::webtypes::CounterSetRequest { count: 9 };
    assert_eq!(set.count, 9);
    let create = visit_counter::webtypes::BadgeCreateRequest {
        name: "b".to_string(),
        count: Some(4),
    };
    assert_eq!(create.count, Some(4));
    let login = visit_counter::webtypes::LoginRequest { password: "pw".to_string() };
    assert_eq!(login.password.is_empty(), false);
    let token = visit_counter::webtypes::TokenResponse { token: "t".to_string() };
    assert_eq!(token.token, "t");
    let mut store = visit_counter::store::PersistentCounterMap::empty();
    store.increment("n");
    let badges = store.get_all_badges();
    let list = visit_counter::webtypes::BadgeListResponse { total: badges.len(), badges };
    assert_eq!(list.total, 1);
}
