//! Theme selector widget: choosing one of a set of named color schemes.

use vstd::prelude::*;
use crate::ast::{Annotation, param_bool_or};
use crate::error::{WezzteError, ErrorView};
use crate::text::{first_index, lemma_first_index, lemma_first_index_at, push_str, str_eq, to_owned_string};
use crate::widgets::traits::{WidgetConfig, WidgetConfigView, WidgetValue, WVal, config_from_annotation};
use crate::widgets::implementations::select::with_current;

verus! {

/// Theme definition with colors and metadata.
#[derive(Debug)]
pub struct Theme {
    pub name: String,
    pub display_name: String,
    pub description: String,
    /// Color role and `#rrggbb` color, one entry per role
    pub colors: Vec<(String, String)>,
    pub is_dark: bool,
    pub author: Option<String>,
}

/// Model of [`Theme`].
pub struct ThemeView {
    pub name: Seq<char>,
    pub display_name: Seq<char>,
    pub description: Seq<char>,
    pub colors: Seq<(Seq<char>, Seq<char>)>,
    pub is_dark: bool,
    pub author: Option<Seq<char>>,
}

impl View for Theme {
    type V = ThemeView;

    open spec fn view(&self) -> ThemeView {
        ThemeView {
            name: self.name@,
            display_name: self.display_name@,
            description: self.description@,
            colors: self.colors@.map_values(|p: (String, String)| (p.0@, p.1@)),
            is_dark: self.is_dark,
            author: match self.author {
                Some(a) => Some(a@),
                None => None,
            },
        }
    }
}

/// The views of a vector of themes.
pub open spec fn theme_views(ts: Seq<Theme>) -> Seq<ThemeView> {
    ts.map_values(|t: Theme| t@)
}

/// The names of some themes.
pub open spec fn theme_names(ts: Seq<ThemeView>) -> Seq<Seq<char>> {
    ts.map_values(|t: ThemeView| t.name)
}

/// The first theme with the given name.
pub open spec fn theme_named(ts: Seq<ThemeView>, name: Seq<char>) -> Option<ThemeView> {
    match first_index(theme_names(ts), name) {
        Some(i) => Some(ts[i]),
        None => None,
    }
}

/// The color roles every built-in theme defines, in order.
pub open spec fn color_roles() -> Seq<Seq<char>> {
    seq![
        "background"@, "foreground"@, "cursor"@, "selection"@, "black"@, "red"@,
        "green"@, "yellow"@, "blue"@, "magenta"@, "cyan"@, "white"@,
    ]
}

/// The twelve color roles paired with the given colors.
pub open spec fn palette(values: Seq<Seq<char>>) -> Seq<(Seq<char>, Seq<char>)> {
    Seq::new(12, |i: int| (color_roles()[i], values[i]))
}

/// A theme's model from its parts.
pub open spec fn theme_view(
    name: Seq<char>,
    display_name: Seq<char>,
    description: Seq<char>,
    values: Seq<Seq<char>>,
    is_dark: bool,
    author: Seq<char>,
) -> ThemeView {
    ThemeView { name, display_name, description, colors: palette(values), is_dark, author: Some(author) }
}

/// The built-in themes.
pub open spec fn builtin_theme_views() -> Seq<ThemeView> {
    seq![
        theme_view("dracula"@, "Dracula"@, "Dark theme inspired by Dracula"@, seq![
            "#282a36"@, "#f8f8f2"@, "#f8f8f2"@, "#44475a"@, "#000000"@, "#ff5555"@,
            "#50fa7b"@, "#f1fa8c"@, "#bd93f9"@, "#ff79c6"@, "#8be9fd"@, "#bfbfbf"@,
        ], true, "Dracula Team"@),
        theme_view("gruvbox-dark"@, "Gruvbox Dark"@, "Retro groove color scheme"@, seq![
            "#282828"@, "#ebdbb2"@, "#ebdbb2"@, "#504945"@, "#282828"@, "#cc241d"@,
            "#98971a"@, "#d79921"@, "#458588"@, "#b16286"@, "#689d6a"@, "#a89984"@,
        ], true, "morhetz"@),
        theme_view("solarized-light"@, "Solarized Light"@, "Precision colors for machines and people"@, seq![
            "#fdf6e3"@, "#657b83"@, "#657b83"@, "#eee8d5"@, "#073642"@, "#dc322f"@,
            "#859900"@, "#b58900"@, "#268bd2"@, "#d33682"@, "#2aa198"@, "#eee8d5"@,
        ], false, "Ethan Schoonover"@),
        theme_view("tokyonight"@, "Tokyo Night"@, "A clean, dark theme that celebrates Tokyo's neon nights"@, seq![
            "#1a1b26"@, "#c0caf5"@, "#c0caf5"@, "#364a82"@, "#15161e"@, "#f7768e"@,
            "#9ece6a"@, "#e0af68"@, "#7aa2f7"@, "#bb9af7"@, "#7dcfff"@, "#a9b1d6"@,
        ], true, "folke"@),
        theme_view("catppuccin-mocha"@, "Catppuccin Mocha"@, "Soothing pastel theme for the high-spirited!"@, seq![
            "#1e1e2e"@, "#cdd6f4"@, "#f5e0dc"@, "#45475a"@, "#45475a"@, "#f38ba8"@,
            "#a6e3a1"@, "#f9e2af"@, "#89b4fa"@, "#f5c2e7"@, "#94e2d5"@, "#bac2de"@,
        ], true, "Catppuccin"@),
    ]
}

/// The color roles a preview shows, in order.
pub open spec fn preview_roles() -> Seq<Seq<char>> {
    seq!["background"@, "foreground"@, "red"@, "green"@, "blue"@, "yellow"@]
}

/// The roles of some color entries.
pub open spec fn roles_of(colors: Seq<(Seq<char>, Seq<char>)>) -> Seq<Seq<char>> {
    colors.map_values(|p: (Seq<char>, Seq<char>)| p.0)
}

/// The color a theme gives a role (its first entry for the role).
pub open spec fn role_color(colors: Seq<(Seq<char>, Seq<char>)>, role: Seq<char>) -> Option<Seq<char>> {
    match first_index(roles_of(colors), role) {
        Some(i) => Some(colors[i].1),
        None => None,
    }
}

/// The `(role, color)` pairs of the first `n` preview roles that the colors define.
pub open spec fn preview_pairs(colors: Seq<(Seq<char>, Seq<char>)>, n: int) -> Seq<(Seq<char>, Seq<char>)>
    decreases n,
{
    if n <= 0 {
        Seq::empty()
    } else {
        let r = preview_pairs(colors, n - 1);
        match role_color(colors, preview_roles()[n - 1]) {
            Some(c) => r.push((preview_roles()[n - 1], c)),
            None => r,
        }
    }
}

/// The twelve role/color pairs for the given colors.
fn palette12(
    c0: &str, c1: &str, c2: &str, c3: &str, c4: &str, c5: &str,
    c6: &str, c7: &str, c8: &str, c9: &str, c10: &str, c11: &str,
) -> (r: Vec<(String, String)>)
    ensures
        r@.map_values(|p: (String, String)| (p.0@, p.1@)) == palette(
            seq![c0@, c1@, c2@, c3@, c4@, c5@, c6@, c7@, c8@, c9@, c10@, c11@],
        ),
{
    let mut out: Vec<(String, String)> = Vec::new();
    out.push((to_owned_string("background"), to_owned_string(c0)));
    out.push((to_owned_string("foreground"), to_owned_string(c1)));
    out.push((to_owned_string("cursor"), to_owned_string(c2)));
    out.push((to_owned_string("selection"), to_owned_string(c3)));
    out.push((to_owned_string("black"), to_owned_string(c4)));
    out.push((to_owned_string("red"), to_owned_string(c5)));
    out.push((to_owned_string("green"), to_owned_string(c6)));
    out.push((to_owned_string("yellow"), to_owned_string(c7)));
    out.push((to_owned_string("blue"), to_owned_string(c8)));
    out.push((to_owned_string("magenta"), to_owned_string(c9)));
    out.push((to_owned_string("cyan"), to_owned_string(c10)));
    out.push((to_owned_string("white"), to_owned_string(c11)));
    assert(out@.map_values(|p: (String, String)| (p.0@, p.1@)) =~= palette(
        seq![c0@, c1@, c2@, c3@, c4@, c5@, c6@, c7@, c8@, c9@, c10@, c11@],
    ));
    out
}

/// Builds a theme from its parts.
fn make_theme(
    name: &str,
    display_name: &str,
    description: &str,
    colors: Vec<(String, String)>,
    is_dark: bool,
    author: &str,
) -> (t: Theme)
    ensures
        t@ == (ThemeView {
            name: name@,
            display_name: display_name@,
            description: description@,
            colors: colors@.map_values(|p: (String, String)| (p.0@, p.1@)),
            is_dark,
            author: Some(author@),
        }),
{
    Theme {
        name: to_owned_string(name),
        display_name: to_owned_string(display_name),
        description: to_owned_string(description),
        colors,
        is_dark,
        author: Some(to_owned_string(author)),
    }
}

impl Theme {
    /// A copy of this theme.
    pub fn copy(&self) -> (r: Theme)
        ensures
            r@ == self@,
    {
        let mut colors: Vec<(String, String)> = Vec::new();
        let mut i: usize = 0;
        while i < self.colors.len()
            invariant
                i <= self.colors@.len(),
                colors@.len() == i,
                forall|j: int|
                    0 <= j < i ==> colors@[j].0@ == self.colors@[j].0@ && colors@[j].1@
                        == self.colors@[j].1@,
            decreases self.colors.len() - i,
        {
            colors.push((self.colors[i].0.clone(), self.colors[i].1.clone()));
            i = i + 1;
        }
        let r = Theme {
            name: self.name.clone(),
            display_name: self.display_name.clone(),
            description: self.description.clone(),
            colors,
            is_dark: self.is_dark,
            author: match &self.author {
                Some(a) => Some(a.clone()),
                None => None,
            },
        };
        assert(r@.colors =~= self@.colors);
        r
    }

    /// The built-in themes.
    pub fn builtin_themes() -> (r: Vec<Theme>)
        ensures
            theme_views(r@) == builtin_theme_views(),
    {
        let mut v: Vec<Theme> = Vec::new();
        v.push(make_theme("dracula", "Dracula", "Dark theme inspired by Dracula", palette12(
            "#282a36", "#f8f8f2", "#f8f8f2", "#44475a", "#000000", "#ff5555",
            "#50fa7b", "#f1fa8c", "#bd93f9", "#ff79c6", "#8be9fd", "#bfbfbf",
        ), true, "Dracula Team"));
        v.push(make_theme("gruvbox-dark", "Gruvbox Dark", "Retro groove color scheme", palette12(
            "#282828", "#ebdbb2", "#ebdbb2", "#504945", "#282828", "#cc241d",
            "#98971a", "#d79921", "#458588", "#b16286", "#689d6a", "#a89984",
        ), true, "morhetz"));
        v.push(make_theme("solarized-light", "Solarized Light", "Precision colors for machines and people", palette12(
            "#fdf6e3", "#657b83", "#657b83", "#eee8d5", "#073642", "#dc322f",
            "#859900", "#b58900", "#268bd2", "#d33682", "#2aa198", "#eee8d5",
        ), false, "Ethan Schoonover"));
        v.push(make_theme("tokyonight", "Tokyo Night", "A clean, dark theme that celebrates Tokyo's neon nights", palette12(
            "#1a1b26", "#c0caf5", "#c0caf5", "#364a82", "#15161e", "#f7768e",
            "#9ece6a", "#e0af68", "#7aa2f7", "#bb9af7", "#7dcfff", "#a9b1d6",
        ), true, "folke"));
        v.push(make_theme("catppuccin-mocha", "Catppuccin Mocha", "Soothing pastel theme for the high-spirited!", palette12(
            "#1e1e2e", "#cdd6f4", "#f5e0dc", "#45475a", "#45475a", "#f38ba8",
            "#a6e3a1", "#f9e2af", "#89b4fa", "#f5c2e7", "#94e2d5", "#bac2de",
        ), true, "Catppuccin"));
        assert(theme_views(v@) =~= builtin_theme_views());
        v
    }

    /// The built-in theme with the given name.
    pub fn find_theme(name: &str) -> (r: Option<Theme>)
        ensures
            match theme_named(builtin_theme_views(), name@) {
                Some(t) => r matches Some(x) && x@ == t,
                None => r is None,
            },
    {
        let themes = Self::builtin_themes();
        proof {
            lemma_first_index(theme_names(theme_views(themes@)), name@);
        }
        match find_named(&themes, name) {
            Some(i) => Some(themes[i].copy()),
            None => None,
        }
    }
}

/// Index of the first theme named `name`.
fn find_named(themes: &Vec<Theme>, name: &str) -> (r: Option<usize>)
    ensures
        match first_index(theme_names(theme_views(themes@)), name@) {
            Some(i) => r matches Some(k) && k == i,
            None => r is None,
        },
{
    let ghost names = theme_names(theme_views(themes@));
    let mut i: usize = 0;
    while i < themes.len()
        invariant
            i <= themes@.len(),
            names == theme_names(theme_views(themes@)),
            forall|j: int| 0 <= j < i ==> names[j] != name@,
        decreases themes.len() - i,
    {
        if str_eq(themes[i].name.as_str(), name) {
            proof {
                lemma_first_index_at(names, name@, i as int);
            }
            return Some(i);
        }
        i = i + 1;
    }
    proof {
        lemma_first_index(names, name@);
    }
    None
}

/// The roles of some color entries.
pub open spec fn entry_roles(colors: Seq<(String, String)>) -> Seq<Seq<char>> {
    colors.map_values(|p: (String, String)| p.0@)
}

/// Index of the first color entry for `role`.
fn find_role(colors: &Vec<(String, String)>, role: &str) -> (r: Option<usize>)
    ensures
        match first_index(entry_roles(colors@), role@) {
            Some(i) => r matches Some(k) && k == i,
            None => r is None,
        },
{
    let ghost keys = entry_roles(colors@);
    let mut i: usize = 0;
    while i < colors.len()
        invariant
            i <= colors@.len(),
            keys == entry_roles(colors@),
            forall|j: int| 0 <= j < i ==> keys[j] != role@,
        decreases colors.len() - i,
    {
        if str_eq(colors[i].0.as_str(), role) {
            proof {
                lemma_first_index_at(keys, role@, i as int);
            }
            return Some(i);
        }
        i = i + 1;
    }
    proof {
        lemma_first_index(keys, role@);
    }
    None
}

/// Theme selector widget for choosing predefined themes.
#[derive(Debug)]
pub struct ThemeSelectorWidget {
    config: WidgetConfig,
    initial_value: WidgetValue,
    available_themes: Vec<Theme>,
    allow_custom: bool,
}

/// Model of [`ThemeSelectorWidget`].
pub struct ThemeSelectorView {
    pub config: WidgetConfigView,
    pub initial_value: WVal,
    pub themes: Seq<ThemeView>,
    pub allow_custom: bool,
}

impl View for ThemeSelectorWidget {
    type V = ThemeSelectorView;

    closed spec fn view(&self) -> ThemeSelectorView {
        ThemeSelectorView {
            config: self.config@,
            initial_value: self.initial_value@,
            themes: theme_views(self.available_themes@),
            allow_custom: self.allow_custom,
        }
    }
}

/// Render data specific to theme selectors.
#[derive(Debug)]
pub struct ThemeSelectorRenderData {
    pub available_themes: Vec<Theme>,
    pub current_theme: Option<Theme>,
    pub allow_custom: bool,
    pub filter_dark_themes: Option<bool>,
}

/// The theme selector with its current value replaced.
pub open spec fn selector_with_value(w: ThemeSelectorView, v: WVal) -> ThemeSelectorView {
    ThemeSelectorView { config: with_current(w.config, v), ..w }
}

/// The name of the current theme (`default` when the value is not a string).
pub open spec fn current_name(w: ThemeSelectorView) -> Seq<char> {
    match w.config.current_value {
        WVal::Str(s) => s,
        _ => "default"@,
    }
}

/// Outcome of checking a theme name.
pub open spec fn theme_name_check(themes: Seq<ThemeView>, allow_custom: bool, name: Seq<char>) -> Result<
    (),
    ErrorView,
> {
    if allow_custom || theme_names(themes).contains(name) {
        Ok(())
    } else {
        Err(
            ErrorView::InvalidParameter {
                param: "theme_name"@,
                message: "theme '"@ + name + "' not found in available themes"@,
            },
        )
    }
}

/// Outcome of validating a value for a theme selector.
pub open spec fn theme_value_check(themes: Seq<ThemeView>, allow_custom: bool, x: WVal) -> Result<
    (),
    ErrorView,
> {
    match x {
        WVal::Str(s) => theme_name_check(themes, allow_custom, s),
        _ => Err(
            ErrorView::InvalidParameter {
                param: "value"@,
                message: "theme selector requires string value"@,
            },
        ),
    }
}

/// The themes whose darkness is `dark`, in order.
pub open spec fn themes_with_darkness(ts: Seq<ThemeView>, dark: bool) -> Seq<ThemeView>
    decreases ts.len(),
{
    if ts.len() == 0 {
        Seq::empty()
    } else {
        let r = themes_with_darkness(ts.drop_last(), dark);
        if ts.last().is_dark == dark {
            r.push(ts.last())
        } else {
            r
        }
    }
}

/// The themes that are dark (`Some(true)`), light (`Some(false)`) or all of them.
pub open spec fn themes_filtered(ts: Seq<ThemeView>, dark_only: Option<bool>) -> Seq<ThemeView> {
    match dark_only {
        Some(d) => themes_with_darkness(ts, d),
        None => ts,
    }
}

impl ThemeSelectorWidget {
    /// Create a new theme selector; the current value must be a string.
    pub fn new(config: WidgetConfig, available_themes: Vec<Theme>, allow_custom: bool) -> (r: Result<
        ThemeSelectorWidget,
        WezzteError,
    >)
        ensures
            config@.current_value is Str ==> (r matches Ok(w) && w@ == (ThemeSelectorView {
                config: config@,
                initial_value: config@.current_value,
                themes: theme_views(available_themes@),
                allow_custom,
            })),
            !(config@.current_value is Str) ==> (r matches Err(x) && x@ == (ErrorView::InvalidParameter {
                param: "current_value"@,
                message: "theme selector requires string value"@,
            })),
    {
        if !matches!(config.current_value, WidgetValue::String(_)) {
            return Err(
                WezzteError::invalid_param(
                    "current_value",
                    to_owned_string("theme selector requires string value"),
                ),
            );
        }
        let initial_value = config.current_value.copy();
        Ok(ThemeSelectorWidget { config, initial_value, available_themes, allow_custom })
    }

    /// Get the current theme name.
    pub fn current_theme_name(&self) -> (r: &str)
        ensures
            r@ == current_name(self@),
    {
        match &self.config.current_value {
            WidgetValue::String(s) => s.as_str(),
            _ => "default",
        }
    }

    /// Get the current theme definition.
    pub fn current_theme(&self) -> (r: Option<Theme>)
        ensures
            match theme_named(self@.themes, current_name(self@)) {
                Some(t) => r matches Some(x) && x@ == t,
                None => r is None,
            },
    {
        proof {
            lemma_first_index(theme_names(self@.themes), current_name(self@));
        }
        match find_named(&self.available_themes, self.current_theme_name()) {
            Some(i) => {
                assert(self@.themes[i as int] == self.available_themes@[i as int]@);
                Some(self.available_themes[i].copy())
            },
            None => None,
        }
    }

    /// The themes offered.
    pub fn available_themes(&self) -> (r: &Vec<Theme>)
        ensures
            theme_views(r@) == self@.themes,
    {
        &self.available_themes
    }

    /// Whether names outside the themes are accepted.
    pub fn allow_custom(&self) -> (r: bool)
        ensures
            r == self@.allow_custom,
    {
        self.allow_custom
    }

    /// Validate a theme name.
    pub fn validate_theme_name(&self, theme_name: &str) -> (r: Result<(), WezzteError>)
        ensures
            match theme_name_check(self@.themes, self@.allow_custom, theme_name@) {
                Ok(()) => r is Ok,
                Err(e) => r matches Err(x) && x@ == e,
            },
    {
        if self.allow_custom {
            return Ok(());
        }
        let found = find_named(&self.available_themes, theme_name);
        proof {
            let names = theme_names(self@.themes);
            lemma_first_index(names, theme_name@);
            if names.contains(theme_name@) {
                let j = choose|j: int| 0 <= j < names.len() && names[j] == theme_name@;
                assert(names[j] == theme_name@);
            }
        }
        match found {
            Some(_) => Ok(()),
            None => {
                let mut m = to_owned_string("theme '");
                push_str(&mut m, theme_name);
                push_str(&mut m, "' not found in available themes");
                Err(WezzteError::invalid_param("theme_name", m))
            },
        }
    }

    /// Filter themes by dark/light preference.
    pub fn filter_themes(&self, dark_only: Option<bool>) -> (r: Vec<&Theme>)
        ensures
            r@.map_values(|t: &Theme| t@) == themes_filtered(self@.themes, dark_only),
    {
        let mut out: Vec<&Theme> = Vec::new();
        let ghost ts = self@.themes;
        let mut i: usize = 0;
        while i < self.available_themes.len()
            invariant
                i <= self.available_themes@.len(),
                ts == theme_views(self.available_themes@),
                out@.map_values(|t: &Theme| t@) == themes_filtered(ts.take(i as int), dark_only),
            decreases self.available_themes.len() - i,
        {
            let t = &self.available_themes[i];
            let keep = match dark_only {
                Some(d) => t.is_dark == d,
                None => true,
            };
            proof {
                assert(ts.take(i + 1).drop_last() =~= ts.take(i as int));
                assert(ts.take(i + 1).last() == t@);
                assert(ts.take(i as int).push(t@) =~= ts.take(i + 1));
            }
            if keep {
                out.push(t);
            }
            assert(out@.map_values(|t: &Theme| t@) =~= themes_filtered(ts.take(i + 1), dark_only));
            i = i + 1;
        }
        assert(ts.take(i as int) =~= ts);
        out
    }

    /// The theme's colors for the preview roles it defines, in preview order.
    pub fn get_preview_colors(&self, theme: &Theme) -> (r: Vec<(String, String)>)
        ensures
            r@.map_values(|p: (String, String)| (p.0@, p.1@)) == preview_pairs(theme@.colors, 6),
    {
        let roles: [&str; 6] = ["background", "foreground", "red", "green", "blue", "yellow"];
        assert(roles@.map_values(|s: &str| s@) =~= preview_roles());
        let ghost cs = theme@.colors;
        let ghost keys = roles_of(cs);
        let mut out: Vec<(String, String)> = Vec::new();
        let mut k: usize = 0;
        while k < 6
            invariant
                k <= 6,
                roles@.map_values(|s: &str| s@) == preview_roles(),
                cs == theme@.colors,
                keys == roles_of(cs),
                out@.map_values(|p: (String, String)| (p.0@, p.1@)) == preview_pairs(cs, k as int),
            decreases 6 - k,
        {
            let role = roles[k];
            assert(roles@.map_values(|s: &str| s@)[k as int] == role@);
            let found = find_role(&theme.colors, role);
            proof {
                lemma_first_index(keys, role@);
                assert(keys =~= entry_roles(theme.colors@));
                assert(first_index(roles_of(cs), role@) == first_index(entry_roles(theme.colors@), role@));
            }
            let ghost before = out@.map_values(|p: (String, String)| (p.0@, p.1@));
            assert(preview_roles()[k as int] == role@);
            assert(role_color(cs, role@) == (match found {
                Some(j) => Some(cs[j as int].1),
                None => None::<Seq<char>>,
            }));
            assert(preview_pairs(cs, k + 1) == (match role_color(cs, role@) {
                Some(c) => preview_pairs(cs, k as int).push((role@, c)),
                None => preview_pairs(cs, k as int),
            }));
            match found {
                Some(j) => {
                    out.push((to_owned_string(role), theme.colors[j].1.clone()));
                    assert(out@.map_values(|p: (String, String)| (p.0@, p.1@)) =~= before.push(
                        (role@, cs[j as int].1),
                    ));
                },
                None => {},
            }
            k = k + 1;
        }
        out
    }

    /// The widget's configuration.
    pub fn config(&self) -> (r: &WidgetConfig)
        ensures
            r@ == self@.config,
    {
        &self.config
    }

    /// The current value.
    pub fn get_value(&self) -> (r: &WidgetValue)
        ensures
            r@ == self@.config.current_value,
    {
        &self.config.current_value
    }

    /// Set the value: it must be a string naming one of the themes, unless
    /// custom names are allowed; on an error the widget is unchanged.
    pub fn set_value(&mut self, value: WidgetValue) -> (r: Result<(), WezzteError>)
        ensures
            match theme_value_check(old(self)@.themes, old(self)@.allow_custom, value@) {
                Ok(()) => r is Ok && final(self)@ == selector_with_value(old(self)@, value@),
                Err(e) => r matches Err(x) && x@ == e && final(self)@ == old(self)@,
            },
    {
        match self.validate_value(&value) {
            Ok(()) => {
                self.config.current_value = value;
                Ok(())
            },
            Err(e) => Err(e),
        }
    }

    /// Validate a potential value for this widget.
    pub fn validate_value(&self, value: &WidgetValue) -> (r: Result<(), WezzteError>)
        ensures
            match theme_value_check(self@.themes, self@.allow_custom, value@) {
                Ok(()) => r is Ok,
                Err(e) => r matches Err(x) && x@ == e,
            },
    {
        match value {
            WidgetValue::String(s) => self.validate_theme_name(s.as_str()),
            _ => Err(
                WezzteError::invalid_param("value", to_owned_string("theme selector requires string value")),
            ),
        }
    }

    /// The configuration text of the current value.
    pub fn to_config_string(&self) -> (r: String)
        ensures
            r@ == crate::widgets::traits::config_text(self@.config.current_value),
    {
        self.config.current_value.to_config_string()
    }

    /// Whether the value differs from the initial one.
    pub fn has_changed(&self) -> (r: bool)
        ensures
            r == (self@.config.current_value != self@.initial_value),
    {
        !self.config.current_value.same_as(&self.initial_value)
    }

    /// Reset the widget to its initial value.
    pub fn reset(&mut self) -> (r: Result<(), WezzteError>)
        ensures
            r is Ok,
            final(self)@ == selector_with_value(old(self)@, old(self)@.initial_value),
    {
        self.config.current_value = self.initial_value.copy();
        Ok(())
    }

    /// The data a front end needs to draw the selector.
    pub fn render_data(&self) -> (r: ThemeSelectorRenderData)
        ensures
            theme_views(r.available_themes@) == self@.themes,
            match theme_named(self@.themes, current_name(self@)) {
                Some(t) => r.current_theme matches Some(x) && x@ == t,
                None => r.current_theme is None,
            },
            r.allow_custom == self@.allow_custom,
            r.filter_dark_themes is None,
    {
        let mut themes: Vec<Theme> = Vec::new();
        let mut i: usize = 0;
        while i < self.available_themes.len()
            invariant
                i <= self.available_themes@.len(),
                themes@.len() == i,
                forall|j: int| 0 <= j < i ==> themes@[j]@ == self.available_themes@[j]@,
            decreases self.available_themes.len() - i,
        {
            themes.push(self.available_themes[i].copy());
            i = i + 1;
        }
        assert(theme_views(themes@) =~= theme_views(self.available_themes@));
        ThemeSelectorRenderData {
            available_themes: themes,
            current_theme: self.current_theme(),
            allow_custom: self.allow_custom,
            filter_dark_themes: None,
        }
    }

    /// Create a theme selector from an annotation: the built-in themes, and
    /// the `allow_custom` parameter (false by default).
    pub fn from_annotation(
        id: String,
        config_key: String,
        annotation: &Annotation,
        current_value: WidgetValue,
    ) -> (r: Result<ThemeSelectorWidget, WezzteError>)
        ensures
            current_value@ is Str ==> (r matches Ok(w) && w@ == (ThemeSelectorView {
                config: config_from_annotation(id@, config_key@, annotation.params@, current_value@),
                initial_value: current_value@,
                themes: builtin_theme_views(),
                allow_custom: param_bool_or(annotation.params@, "allow_custom"@, false),
            })),
            !(current_value@ is Str) ==> (r matches Err(x) && x@ == (ErrorView::InvalidParameter {
                param: "current_value"@,
                message: "theme selector requires string value"@,
            })),
    {
        let config = WidgetConfig::from_annotation(id, config_key, annotation, current_value);
        let available_themes = Theme::builtin_themes();
        let allow_custom = annotation.get_param_as_bool("allow_custom", false);
        Self::new(config, available_themes, allow_custom)
    }

    /// The UI type this widget handles.
    pub fn ui_type() -> (r: &'static str)
        ensures
            r@ == "theme_selector"@,
    {
        "theme_selector"
    }
}


/// Resetting after setting a value gives back the initial value, whatever was set.
pub proof fn law_selector_reset_after_set(w: ThemeSelectorView, v: WVal)
    ensures
        ({
            let after = selector_with_value(w, v);
            let reset = selector_with_value(after, after.initial_value);
            reset == selector_with_value(w, w.initial_value) && reset.config.current_value == reset.initial_value
        }),
{
}

/// Each built-in theme gives every color role exactly once.
pub proof fn law_builtin_theme_roles_unique()
    ensures
        forall|t: int| 0 <= t < builtin_theme_views().len() ==> roles_of((#[trigger] builtin_theme_views()[t]).colors)
            == color_roles() && color_roles().no_duplicates(),
{
    reveal_strlit("background");
    reveal_strlit("foreground");
    reveal_strlit("cursor");
    reveal_strlit("selection");
    reveal_strlit("black");
    reveal_strlit("red");
    reveal_strlit("green");
    reveal_strlit("yellow");
    reveal_strlit("blue");
    reveal_strlit("magenta");
    reveal_strlit("cyan");
    reveal_strlit("white");
    let rs = color_roles();
    assert forall|a: int, b: int| 0 <= a < rs.len() && 0 <= b < rs.len() && a != b implies rs[a] != rs[b] by {
        if rs[a] == rs[b] {
            assert(rs[a].len() == rs[b].len());
            assert(rs[a][0] == rs[b][0]);
            if rs[a].len() > 1 {
                assert(rs[a][1] == rs[b][1]);
            }
        }
    }
    assert forall|t: int| 0 <= t < builtin_theme_views().len() implies roles_of(
        (#[trigger] builtin_theme_views()[t]).colors,
    ) == color_roles() by {
        assert(roles_of(builtin_theme_views()[t].colors) =~= color_roles());
    }
}

/// A theme selector that allows custom themes accepts every theme name; one
/// that does not accepts exactly the names of its themes, and refuses any
/// other name with an error naming it.
pub proof fn law_theme_names_accepted(themes: Seq<ThemeView>, allow_custom: bool, name: Seq<char>)
    ensures
        allow_custom ==> theme_name_check(themes, allow_custom, name) is Ok,
        theme_names(themes).contains(name) ==> theme_name_check(themes, allow_custom, name) is Ok,
        !allow_custom && !theme_names(themes).contains(name) ==> theme_name_check(themes, allow_custom, name)
            == Err::<(), ErrorView>(
            ErrorView::InvalidParameter {
                param: "theme_name"@,
                message: "theme '"@ + name + "' not found in available themes"@,
            },
        ),
        allow_custom ==> theme_value_check(themes, allow_custom, WVal::Str(name)) is Ok,
{
}

} // verus!
