//! Start of the bar, and its dealings with the desktop shell.

use crate::bar::actions;
use crate::bar::actions::{append, Action};
use crate::bar::app::App;
use crate::bar::identity;
use crate::bar::model;
use crate::bar::model::{Model, Msg};
use crate::bar::tables;
use crate::config::{Config, PanelBackground, PanelTheme};
use crate::float::single::F32;
use crate::settings::SettingsState;
use crate::text::same_text;
use vstd::prelude::*;

verus! {

/// What the bar was started with.
#[derive(Clone, Debug, Default)]
pub struct Args {
    pub action: Option<String>,
}

/// `--settings` is among the arguments.
pub open spec fn asks_for_settings(args: Seq<String>) -> bool {
    exists|i: int| 0 <= i < args.len() && (#[trigger] args[i])@ == "--settings"@
}

impl Args {
    /// What the command line asks for.
    pub fn parse(args: &Vec<String>) -> (res: Args)
        ensures
            res.action is Some == asks_for_settings(args@),
            res.action matches Some(a) ==> a@ == "settings"@,
    {
        let mut i: usize = 0;
        while i < args.len()
            invariant
                i <= args.len(),
                forall|k: int| 0 <= k < i ==> (#[trigger] args@[k])@ != "--settings"@,
            decreases args.len() - i,
        {
            if same_text(&args[i], "--settings") {
                return Args { action: Some("settings".to_owned()) };
            }
            i = i + 1;
        }
        Args { action: None }
    }

    /// What an instance that runs already is asked for.
    pub fn action(&self) -> (res: Option<&String>)
        ensures
            match res {
                Some(a) => self.action == Some(*a),
                None => self.action is None,
            },
    {
        match &self.action {
            Some(a) => Some(a),
            None => None,
        }
    }
}

/// What another start of the bar asks of the one that runs.
#[derive(Clone, Copy, Debug, PartialEq, Eq, Structural)]
pub enum Activation {
    Activate,
    ActivateAction,
    Open,
}

/// What a surface shows.
#[derive(Clone, Copy, Debug, PartialEq, Eq, Structural)]
pub enum Content {
    Settings,
    Menu,
    Rename,
    Bar,
    Nothing,
}

/// Which sources of events are listened to, besides surfaces and configuration.
#[derive(Clone, Copy, Debug, PartialEq, Eq, Structural)]
pub struct Sources {
    pub media: bool,
    pub wayland: bool,
}

/// The kind of an event from the compositor.
#[derive(Clone, Copy, Debug, PartialEq, Eq, Structural)]
pub enum EventKind {
    Output,
    Layer,
    Popup,
    OverlapLayerAdd,
    OverlapLayerRemove,
    /// Windows overlap all the time.
    OverlapToplevel,
    /// A frame was drawn.
    Frame,
    Other,
}

/// Whether an event is taken in. Frame events must not be: a commit would bring
/// a frame event, that a message, that a redraw, and that a commit again.
pub fn forwards(kind: EventKind) -> (res: bool)
    ensures
        res == !(kind is OverlapToplevel || kind is Frame || kind is Other),
{
    matches!(
        kind,
        EventKind::Output | EventKind::Layer | EventKind::Popup | EventKind::OverlapLayerAdd
            | EventKind::OverlapLayerRemove
    )
}

/// The state at the start.
pub open spec fn initial(config: Config, frosted: bool, store: bool) -> Model {
    Model {
        config,
        panel_theme: PanelTheme {
            background: PanelBackground::ThemeDefault,
            opacity: F32::of_int(1),
            border_radius: 0,
        },
        frosted_panel: frosted,
        store,
        window: None,
        context_menu: None,
        rename: None,
        media: None,
        volume_generation: 0,
        layer_surfaces: Seq::empty(),
        probe_surfaces: Seq::empty(),
        reserved: Seq::empty(),
        outputs: Seq::empty(),
        workspaces: Seq::empty(),
        connected: false,
        backend: false,
        next_id: 0,
    }
}

impl App {
    /// Start the bar. If the settings were asked for, they open.
    pub fn init(flags: &Args, config: Config, frosted: bool, store: bool) -> (res: (
        App,
        Vec<Action>,
    ))
        ensures
            ({
                let start = initial(config, frosted, store);
                let prefer = model::one(Action::SetPreferred(config.preferred_player));
                let outcome = if flags.action is Some {
                    start.settings_opened()
                } else {
                    start.still()
                };
                &&& res.0@ == outcome.model
                &&& actions::acts(res.1@) == prefer + outcome.acts
            }),
            res.0@.valid(),
    {
        let theme: PanelTheme = PanelTheme::default();
        let mut app: App = App {
            config,
            panel_theme: theme,
            frosted_panel: frosted,
            store,
            settings: SettingsState::new(),
            context_menu: None,
            rename: None,
            media: None,
            volume_generation: 0,
            layer_surfaces: Vec::new(),
            probe_surfaces: Vec::new(),
            reserved: Vec::new(),
            outputs: Vec::new(),
            workspaces: Vec::new(),
            connected: false,
            backend: false,
            next_id: 0,
        };
        let mut out: Vec<Action> = Vec::new();
        let ghost start = app@;
        assert(start =~= initial(config, frosted, store));
        proof {
            identity::surfaces_stay_apart(start, Msg::OpenSettings);
        }
        append(&mut out, Action::SetPreferred(app.config.preferred_player.clone()));
        assert(actions::acts(out@) =~= model::one(
            Action::SetPreferred(config.preferred_player),
        ));
        if flags.action.is_some() {
            app.open_settings(&mut out);
        } else {
            assert(actions::acts(out@) =~= actions::acts(out@) + model::nothing());
        }
        (app, out)
    }

    /// Another start of the bar asks something of this one.
    pub fn dbus_activation(&mut self, details: Activation) -> (out: Vec<Action>)
        requires
            old(self)@.has_room(),
        ensures
            ({
                let outcome = if details is Open {
                    old(self)@.still()
                } else {
                    old(self)@.settings_opened()
                };
                &&& final(self)@ == outcome.model
                &&& actions::acts(out@) == outcome.acts
            }),
            old(self)@.valid() ==> final(self)@.valid(),
    {
        let mut out: Vec<Action> = Vec::new();
        let ghost start = self@;
        proof {
            if start.valid() {
                identity::surfaces_stay_apart(start, Msg::OpenSettings);
            }
        }
        match details {
            Activation::Activate | Activation::ActivateAction => {
                self.open_settings(&mut out);
                assert(actions::acts(out@) =~= start.settings_opened().acts);
            },
            Activation::Open => {
                assert(actions::acts(out@) =~= model::nothing());
            },
        }
        out
    }

    /// The theme of the desktop has changed.
    pub fn system_theme_update(&mut self, frosted: bool) -> (out: Vec<Action>)
        ensures
            final(self)@ == (Model { frosted_panel: frosted, ..old(self)@ }),
            actions::acts(out@) == final(self)@.blur_all(),
            old(self)@.valid() ==> final(self)@.valid(),
    {
        proof {
            if self@.valid() {
                identity::themes_keep_surfaces(self@, frosted);
            }
        }
        self.frosted_panel = frosted;
        let mut out: Vec<Action> = Vec::new();
        self.apply_blur_all(&mut out);
        assert(actions::acts(out@) =~= self@.blur_all());
        out
    }

    /// Which sources of events are listened to.
    pub fn subscription(&self) -> (s: Sources)
        ensures
            s.media == self.config.media_enabled,
            s.wayland == self.connected,
    {
        Sources { media: self.config.media_enabled, wayland: self.connected }
    }

    /// What a surface shows.
    pub fn view_window(&self, id: u64) -> (c: Content)
        ensures
            c == if self.settings.window == Some(id) {
                Content::Settings
            } else if self.context_menu matches Some(menu) && menu.id == id {
                Content::Menu
            } else if self.rename matches Some(dialog) && dialog.id == id {
                Content::Rename
            } else if crate::backend::strips::lookup(self.layer_surfaces@, id) is Some {
                Content::Bar
            } else {
                Content::Nothing
            },
    {
        match self.settings.window {
            Some(w) => if w == id {
                return Content::Settings;
            },
            None => {},
        }
        match &self.context_menu {
            Some(menu) => if menu.id == id {
                return Content::Menu;
            },
            None => {},
        }
        match &self.rename {
            Some(dialog) => if dialog.id == id {
                return Content::Rename;
            },
            None => {},
        }
        if tables::find(&self.layer_surfaces, id).is_some() {
            Content::Bar
        } else {
            Content::Nothing
        }
    }

    /// A window is asked to close.
    pub fn on_close_requested(&self, id: u64) -> (msg: Option<Msg>)
        ensures
            msg == Some(Msg::CloseWindow(id)),
    {
        Some(Msg::CloseWindow(id))
    }
}

} // verus!
