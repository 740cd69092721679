//! Site configuration: the few fields the rendering core reads, and the
//! Markdown-specific settings that steer highlighting and emoji
//! substitution.
use vstd::prelude::*;

use syntect::highlighting::{Theme, ThemeSet};

use crate::registry;
use crate::text;

verus! {

/// The modes the application can run in.
#[derive(Debug, Clone, Copy, PartialEq, Eq, Structural, Hash)]
pub enum Mode {
    /// Normal build mode.
    Build,
    /// Verification without building.
    Check,
    /// Local development server.
    Serve,
}

impl Default for Mode {
    /// The default mode is a normal build.
    fn default() -> (r: Mode)
        ensures
            r == Mode::Build,
    {
        Mode::Build
    }
}

/// Markdown rendering settings.
pub struct Markdown {
    /// Whether to highlight code blocks.
    pub highlight_code: bool,
    /// The color theme's name, or `css` to defer coloring to an external
    /// stylesheet.
    pub highlight_theme: String,
    /// Whether to substitute emoji codes in text.
    pub render_emoji: bool,
    /// Site-supplied themes consulted by name before the built-in ones.
    pub extra_theme_set: Vec<(String, Theme)>,
}

/// The built-in theme name used when none is configured.
pub const DEFAULT_HIGHLIGHT_THEME: &'static str = "base16-ocean-dark";

impl Markdown {
    /// Settings with highlighting and emoji substitution off and the
    /// default theme name.
    pub fn new() -> (r: Markdown)
        ensures
            !r.highlight_code,
            !r.render_emoji,
            r.highlight_theme@ == DEFAULT_HIGHLIGHT_THEME@,
            r.extra_theme_set@.len() == 0,
    {
        Markdown {
            highlight_code: false,
            render_emoji: false,
            highlight_theme: DEFAULT_HIGHLIGHT_THEME.to_owned(),
            extra_theme_set: Vec::new(),
        }
    }

    /// Looks a theme up by name: the site-supplied themes first, then the
    /// built-in set.
    pub fn highlight_theme_by_name<'a>(&'a self, themes: &'a ThemeSet, theme_name: &str) -> Option<
        &'a Theme,
    > {
        let name_chars = text::chars_of(theme_name);
        let mut i: usize = 0;
        while i < self.extra_theme_set.len()
            invariant
                i <= self.extra_theme_set@.len(),
            decreases self.extra_theme_set@.len() - i,
        {
            let entry_chars = text::chars_of(self.extra_theme_set[i].0.as_str());
            if text::chars_eq(&entry_chars, &name_chars) {
                return Some(&self.extra_theme_set[i].1);
            }
            i = i + 1;
        }
        registry::theme_set_get(themes, theme_name)
    }

    /// The configured theme, or `None` when coloring is deferred to an
    /// external stylesheet (`css`) or the name is unknown.
    pub fn get_highlight_theme<'a>(&'a self, themes: &'a ThemeSet) -> (r: Option<&'a Theme>)
        ensures
            self.highlight_theme@ == "css"@ ==> r is None,
    {
        let theme_chars = text::chars_of(self.highlight_theme.as_str());
        let css_chars = text::chars_of("css");
        if text::chars_eq(&theme_chars, &css_chars) {
            None
        } else {
            self.highlight_theme_by_name(themes, self.highlight_theme.as_str())
        }
    }
}

impl Default for Markdown {
    /// The default settings: highlighting and emoji off, default theme.
    fn default() -> (r: Markdown)
        ensures
            !r.highlight_code,
            !r.render_emoji,
            r.highlight_theme@ == DEFAULT_HIGHLIGHT_THEME@,
            r.extra_theme_set@.len() == 0,
    {
        Markdown::new()
    }
}

/// Main configuration.
pub struct Config {
    /// Base URL of the site.
    pub base_url: String,
    /// Title of the site.
    pub title: Option<String>,
    /// Description of the site.
    pub description: Option<String>,
    /// Current operating mode.
    pub mode: Mode,
    /// Markdown rendering settings.
    pub markdown: Markdown,
}

/// The configuration fields handed to templates.
pub struct SerializedConfig<'a> {
    pub base_url: &'a str,
    pub title: Option<&'a str>,
    pub description: Option<&'a str>,
}

impl Default for Config {
    /// An empty configuration in build mode with default Markdown settings.
    fn default() -> (r: Config)
        ensures
            r.base_url@ == Seq::<char>::empty(),
            r.title is None,
            r.description is None,
            r.mode == Mode::Build,
    {
        Config {
            base_url: String::new(),
            title: None,
            description: None,
            mode: Mode::Build,
            markdown: Markdown::new(),
        }
    }
}

impl Config {
    /// Whether the application runs in check mode.
    pub fn is_in_check_mode(&self) -> (r: bool)
        ensures
            r == (self.mode == Mode::Check),
    {
        self.mode == Mode::Check
    }

    /// Switches to serve mode.
    pub fn enable_serve_mode(&mut self)
        ensures
            final(self).mode == Mode::Serve,
            final(self).base_url == old(self).base_url,
            final(self).title == old(self).title,
            final(self).description == old(self).description,
            final(self).markdown == old(self).markdown,
    {
        self.mode = Mode::Serve;
    }

    /// Switches to check mode.
    pub fn enable_check_mode(&mut self)
        ensures
            final(self).mode == Mode::Check,
            final(self).base_url == old(self).base_url,
            final(self).title == old(self).title,
            final(self).description == old(self).description,
            final(self).markdown == old(self).markdown,
    {
        self.mode = Mode::Check;
    }

    /// Borrows the fields handed to templates.
    pub fn serialize(&self) -> (r: SerializedConfig<'_>)
        ensures
            r.base_url@ == self.base_url@,
            (r.title is Some) == (self.title is Some),
            r.title is Some ==> r.title->0@ == self.title->0@,
            (r.description is Some) == (self.description is Some),
            r.description is Some ==> r.description->0@ == self.description->0@,
    {
        SerializedConfig {
            base_url: self.base_url.as_str(),
            title: match &self.title {
                Some(t) => Some(t.as_str()),
                None => None,
            },
            description: match &self.description {
                Some(d) => Some(d.as_str()),
                None => None,
            },
        }
    }
}

} // verus!
