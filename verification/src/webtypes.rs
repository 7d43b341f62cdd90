//! Types shared with the configuration front end: counter and badge
//! responses, requests, the display theme, the application state, the
//! badge configuration form, and the badge image address built from it.

use vstd::prelude::*;

use crate::numtext::dec_digits;
use crate::strtext::str_eq;

verus! {

/// A counter as returned to callers.
#[derive(Debug, Clone)]
pub struct CounterResponse {
    pub name: String,
    pub count: u64,
}

/// A request to set a counter to a value.
#[derive(Debug, Clone)]
pub struct CounterSetRequest {
    pub count: u64,
}

/// A list of badges with its total.
#[derive(Debug, Clone)]
pub struct BadgeListResponse {
    pub total: usize,
    pub badges: Vec<crate::store::BadgeResponse>,
}

/// A login request.
#[derive(Debug, Clone)]
pub struct LoginRequest {
    pub password: String,
}

/// A freshly issued session token.
#[derive(Debug, Clone)]
pub struct TokenResponse {
    pub token: String,
}

/// A request to create a badge, with an optional starting count.
#[derive(Debug, Clone)]
pub struct BadgeCreateRequest {
    pub name: String,
    pub count: Option<u64>,
}

/// The display theme of the configuration interface.
#[derive(Debug, Clone, PartialEq, Eq, Structural)]
pub enum Theme {
    Light,
    Dark,
}

impl Theme {
    /// The theme's storage token.
    pub fn as_str(&self) -> (r: &'static str)
        ensures
            *self is Light ==> r@ == "light"@,
            *self is Dark ==> r@ == "dark"@,
    {
        match self {
            Theme::Light => "light",
            Theme::Dark => "dark",
        }
    }

    /// The other theme.
    pub fn toggle(&self) -> (r: Theme)
        ensures
            r == (match *self {
                Theme::Light => Theme::Dark,
                Theme::Dark => Theme::Light,
            }),
    {
        match self {
            Theme::Light => Theme::Dark,
            Theme::Dark => Theme::Light,
        }
    }
}

impl Default for Theme {
    /// Dark, unless chosen otherwise.
    fn default() -> (r: Theme)
        ensures
            r is Dark,
    {
        Theme::Dark
    }
}

impl From<&str> for Theme {
    /// The theme for a storage token: anything but `light` reads as dark.
    fn from(s: &str) -> (r: Theme) {
        if str_eq(s, "light") {
            Theme::Light
        } else {
            Theme::Dark
        }
    }
}

impl vstd::std_specs::convert::FromSpecImpl<&str> for Theme {
    open spec fn obeys_from_spec() -> bool {
        true
    }

    open spec fn from_spec(s: &str) -> Theme {
        if s@ == "light"@ {
            Theme::Light
        } else {
            Theme::Dark
        }
    }
}

/// The pages of the configuration interface.
#[derive(Debug, Clone, PartialEq, Eq, Structural)]
pub enum AppRoute {
    Home,
    Admin,
}

/// The configuration interface's state.
#[derive(Debug, Clone, PartialEq)]
pub struct AppState {
    pub current_route: AppRoute,
    pub theme: Theme,
    pub auth_token: Option<String>,
    pub is_authenticated: bool,
}

impl Default for AppState {
    /// The home page, dark, signed out.
    fn default() -> (r: AppState)
        ensures
            r.current_route is Home,
            r.theme is Dark,
            r.auth_token is None,
            !r.is_authenticated,
    {
        AppState {
            current_route: AppRoute::Home,
            theme: Theme::Dark,
            auth_token: None,
            is_authenticated: false,
        }
    }
}

/// One badge's visual configuration, with a value for every knob.
#[derive(Debug, Clone, PartialEq)]
pub struct BadgeConfig {
    pub name: String,
    pub label: String,
    pub style: String,
    pub width: u32,
    pub height: u32,
    pub font_family: String,
    pub font_size: u32,
    pub font_weight: String,
    pub text_color: String,
    pub background_color: String,
    pub label_color: String,
    pub counter_color: String,
    pub background_label: String,
    pub background_counter: String,
    pub border_width: u32,
    pub border_color: String,
    pub border_radius: u32,
    pub logo_url: String,
    pub logo_width: u32,
    pub element_positions: String,
}

impl Default for BadgeConfig {
    /// The stock badge: 150 by 20, dark label section, pink counter
    /// section, no border, no logo.
    fn default() -> (r: BadgeConfig)
        ensures
            r.name@ == Seq::<char>::empty(),
            r.label@ == "Visits"@,
            r.style@ == Seq::<char>::empty(),
            r.width == 150,
            r.height == 20,
            r.font_family@ == "Comfortaa, Metrophobic, sans-serif"@,
            r.font_size == 11,
            r.font_weight@ == "normal"@,
            r.text_color@ == "#ffffff"@,
            r.background_color@ == "#18181b"@,
            r.label_color@ == "#ffffff"@,
            r.counter_color@ == "#ffffff"@,
            r.background_label@ == "#18181b"@,
            r.background_counter@ == "#DC26B6"@,
            r.border_width == 0,
            r.border_color@ == "#cccccc"@,
            r.border_radius == 3,
            r.logo_url@ == Seq::<char>::empty(),
            r.logo_width == 30,
            r.element_positions@ == "label,logo,counter"@,
    {
        proof {
            reveal_strlit("");
        }
        let empty1 = String::new();
        let empty2 = String::new();
        let empty3 = String::new();
        BadgeConfig {
            name: empty1,
            label: "Visits".to_owned(),
            style: empty2,
            width: 150,
            height: 20,
            font_family: "Comfortaa, Metrophobic, sans-serif".to_owned(),
            font_size: 11,
            font_weight: "normal".to_owned(),
            text_color: "#ffffff".to_owned(),
            background_color: "#18181b".to_owned(),
            label_color: "#ffffff".to_owned(),
            counter_color: "#ffffff".to_owned(),
            background_label: "#18181b".to_owned(),
            background_counter: "#DC26B6".to_owned(),
            border_width: 0,
            border_color: "#cccccc".to_owned(),
            border_radius: 3,
            logo_url: empty3,
            logo_width: 30,
            element_positions: "label,logo,counter".to_owned(),
        }
    }
}

/// What an address-safe encoding of `s` looks like is urlencoding's
/// business; the result depends on the characters alone.
pub uninterp spec fn url_encoded(s: Seq<char>) -> Seq<char>;

/// Relies on urlencoding's `encode`: percent-encodes everything outside
/// the unreserved set, from the characters alone.
#[verifier::external_body]
fn url_encode(s: &str) -> (r: String)
    ensures
        r@ == url_encoded(s@),
{
    urlencoding::encode(s).into_owned()
}

/// The query parameters joined by ampersands.
pub open spec fn join_params(parts: Seq<Seq<char>>) -> Seq<char>
    decreases parts.len(),
{
    if parts.len() == 0 {
        Seq::empty()
    } else if parts.len() == 1 {
        parts[0]
    } else {
        join_params(parts.drop_last()) + seq!['&'] + parts.last()
    }
}

/// The query parameters of a badge configuration: only what differs from
/// the stock badge is spelled out.
pub open spec fn badge_url_params(c: BadgeConfig) -> Seq<Seq<char>> {
    (if c.label@.len() > 0 && c.label@ != "Visits"@ {
        seq!["label="@ + url_encoded(c.label@)]
    } else {
        Seq::empty()
    }) + (if c.width != 150 {
        seq!["width="@ + dec_digits(c.width as nat)]
    } else {
        Seq::empty()
    }) + (if c.height != 20 {
        seq!["height="@ + dec_digits(c.height as nat)]
    } else {
        Seq::empty()
    }) + (if c.style@.len() > 0 {
        seq!["style="@ + url_encoded(c.style@)]
    } else {
        Seq::empty()
    })
}

/// The badge image's address for a configuration: the counter's path and
/// the non-default parameters.
pub open spec fn badge_url(c: BadgeConfig) -> Seq<char> {
    let params = badge_url_params(c);
    "/counter/"@ + url_encoded(c.name@) + "/svg"@ + (if params.len() == 0 {
        Seq::empty()
    } else {
        seq!['?'] + join_params(params)
    })
}

/// A capability token for privileged counter writes: it exists only for a
/// caller whose key matched the configured one.
#[derive(Debug, Clone)]
pub struct ApiKey {
    key: String,
}

impl ApiKey {
    /// The key that was accepted.
    pub closed spec fn spec_key(&self) -> Seq<char> {
        self.key@
    }

    /// Accepts the caller's key exactly when one was given and it equals
    /// the configured key.
    pub fn check(provided: Option<&str>, expected: &str) -> (r: Option<ApiKey>)
        ensures
            match r {
                Some(k) => provided is Some && provided.unwrap()@ == expected@ && k.spec_key()
                    == expected@,
                None => match provided {
                    Some(p) => p@ != expected@,
                    None => true,
                },
            },
    {
        match provided {
            Some(p) => {
                if str_eq(p, expected) {
                    Some(ApiKey { key: p.to_owned() })
                } else {
                    None
                }
            },
            None => None,
        }
    }
}

/// Calls against the service's interface, and the addresses they use.
pub struct ApiService;

impl ApiService {
    /// The relative address of the badge image for a configuration.
    pub fn build_badge_url(config: &BadgeConfig) -> (r: String)
        ensures
            r@ == badge_url(*config),
    {
        let ghost params_spec = badge_url_params(*config);
        let mut params: Vec<String> = Vec::new();
        if config.label.unicode_len() > 0 && !str_eq(config.label.as_str(), "Visits") {
            let mut p = String::new();
            p.append("label=");
            let enc = url_encode(config.label.as_str());
            p.append(enc.as_str());
            params.push(p);
        }
        if config.width != 150 {
            let mut p = String::new();
            p.append("width=");
            crate::numtext::push_u64(&mut p, config.width as u64);
            params.push(p);
        }
        if config.height != 20 {
            let mut p = String::new();
            p.append("height=");
            crate::numtext::push_u64(&mut p, config.height as u64);
            params.push(p);
        }
        if config.style.unicode_len() > 0 {
            let mut p = String::new();
            p.append("style=");
            let enc = url_encode(config.style.as_str());
            p.append(enc.as_str());
            params.push(p);
        }
        proof {
            assert(params@.map_values(|t: String| t@) =~= params_spec);
        }
        let mut out = String::new();
        out.append("/counter/");
        let enc = url_encode(config.name.as_str());
        out.append(enc.as_str());
        out.append("/svg");
        if params.len() > 0 {
            proof {
                reveal_strlit("?");
                reveal_strlit("&");
                assert("?"@ =~= seq!['?']);
                assert("&"@ =~= seq!['&']);
            }
            out.append("?");
            let n = params.len();
            let mut i: usize = 0;
            let ghost base = out@;
            while i < n
                invariant
                    n == params@.len(),
                    0 < n,
                    i <= n,
                    params_spec == params@.map_values(|t: String| t@),
                    i == 0 ==> out@ == base,
                    i > 0 ==> out@ == base + join_params(params_spec.take(i as int)),
                decreases n - i,
            {
                if i > 0 {
                    out.append("&");
                }
                out.append(params[i].as_str());
                proof {
                    reveal_strlit("&");
                    if i == 0 {
                        assert(params_spec.take(1).len() == 1);
                        assert(join_params(params_spec.take(1)) == params_spec.take(1)[0]);
                        assert(params_spec.take(1)[0] == params_spec[0]);
                        assert(out@ =~= base + join_params(params_spec.take(1)));
                    } else {
                        assert(params_spec.take(i + 1 as int).drop_last() =~= params_spec.take(
                            i as int,
                        ));
                        assert(params_spec.take(i + 1 as int).last() == params_spec[i as int]);
                        assert(join_params(params_spec.take(i + 1 as int)) == join_params(
                            params_spec.take(i as int),
                        ) + seq!['&'] + params_spec[i as int]);
                        assert(out@ =~= base + join_params(params_spec.take(i + 1 as int)));
                    }
                }
                i += 1;
            }
            proof {
                assert(params_spec.take(n as int) =~= params_spec);
                assert(out@ =~= badge_url(*config));
            }
        } else {
            proof {
                assert(out@ =~= badge_url(*config));
            }
        }
        out
    }
}

} // verus!
