//! What the bar asks of its surroundings.

use crate::backend::captures::Cmd;
use crate::backend::media::player::Control;
use crate::backend::pixels::Strips;
use crate::backend::strips::BarFilter;
use crate::bar::geometry::Margin;
use crate::config::{Anchor, Edge, SurfaceSize};
use crate::float::double::F64;
use crate::settings::Write;
use vstd::prelude::*;

verus! {

/// Something to be done outside. Surfaces, outputs and workspaces go by number.
pub enum Action {
    /// Create a bar on an output.
    CreateBar { id: u64, output: u64, size: SurfaceSize, anchor: Anchor, exclusive_zone: i32 },
    /// Create an invisible surface that fills an output, takes no input, and
    /// reports every layer surface there.
    CreateProbe { id: u64, output: u64 },
    /// Create the settings dialog.
    CreateSettings { id: u64, width: u32, height: u32 },
    /// Create the rename dialog and focus its input.
    CreateRename { id: u64, width: u32, height: u32 },
    /// Create a context menu at a point of its parent.
    CreateMenu { id: u64, parent: u64, width: u32, height: u32, x: i32, y: i32 },
    DestroySurface(u64),
    DestroyPopup(u64),
    SetSize { id: u64, to: (Option<u32>, Option<u32>) },
    SetZone { id: u64, zone: i32 },
    SetMargin { id: u64, margin: Margin },
    SetBlur { id: u64, enabled: bool },
    /// Report back after so many milliseconds.
    HideAfter { id: u64, generation: u64, wait: u64 },
    /// Send a command to the backend.
    Send(Cmd),
    /// Bring the color pickers in line with the configuration.
    SyncPickers,
    /// Prefer this media player.
    SetPreferred(String),
    MediaControl { player: String, control: Control },
    /// Bring a player's window up.
    Raise(String),
    AdjustVolume { player: String, delta: F64 },
    /// Report back after so many milliseconds that the volume was shown.
    HideVolumeAfter { generation: u64, wait: u64 },
    /// Fetch album art from the web.
    FetchArt(String),
    /// Write an entry of the configuration.
    Store(Write),
}

/// The bar's geometry as it is told to the backend.
pub struct FilterView {
    pub edge: Edge,
    pub size: u32,
    pub outputs: Seq<(u64, (i32, i32))>,
    pub paused: bool,
    pub preview_px: u32,
    pub clips: Seq<(u64, Strips)>,
}

/// An action, with lists taken by what they hold.
pub enum Act {
    Report(FilterView),
    Plain(Action),
}

/// What is told to the backend.
pub open spec fn told(f: BarFilter) -> FilterView {
    FilterView {
        edge: f.edge,
        size: f.size,
        outputs: f.outputs@,
        paused: f.paused,
        preview_px: f.preview_px,
        clips: f.clips@,
    }
}

impl Action {
    pub open spec fn act(self) -> Act {
        match self {
            Action::Send(Cmd::BarFilter(f)) => Act::Report(told(f)),
            a => Act::Plain(a),
        }
    }
}

/// The actions, with lists taken by what they hold.
pub open spec fn acts(list: Seq<Action>) -> Seq<Act> {
    list.map_values(|a: Action| a.act())
}

/// Add an action to a list.
pub fn append(list: &mut Vec<Action>, action: Action)
    ensures
        acts(final(list)@) == acts(old(list)@).push(action.act()),
{
    list.push(action);
    assert(acts(list@) =~= acts(old(list)@).push(action.act()));
}

} // verus!
