//! All capture sessions, and the commands that the bar sends to the backend.

use crate::backend::pixels;
use crate::backend::session::{
    preview_target, target_px, CaptureImage, FailureReason, Formats, Recovery, ScreencopySession,
    CAPTURE_INTERVAL,
};
use crate::backend::strips::{BarFilter, CaptureSource, Group};
use crate::text::{contains, lowered, occurs_in};
use vstd::prelude::*;

verus! {

/// A workspace as the compositor describes it.
#[derive(Clone, Debug)]
pub struct WorkspaceInfo {
    pub handle: u64,
    pub name: String,
    /// Position among the workspaces, most significant coordinate first.
    pub coordinates: Vec<u32>,
    pub active: bool,
    /// It can be switched to.
    pub can_activate: bool,
    /// The compositor offers its own extension for it.
    pub cosmic_handle: bool,
    /// The extension allows renaming.
    pub cosmic_rename: bool,
}

/// A window as the compositor describes it.
pub struct Toplevel {
    pub app_id: String,
    pub workspaces: Vec<u64>,
    /// The compositor offers its own extension for it.
    pub cosmic_toplevel: bool,
}

/// A command from the bar.
#[derive(Clone, Debug)]
pub enum Cmd {
    ActivateWorkspace(u64),
    RenameWorkspace(u64, String),
    /// Switch to the workspace containing a window matching this app id, and
    /// activate the window itself if possible.
    ActivateToplevelByAppId(String),
    /// Tear down and recreate all capture sessions, and reset their throttling:
    /// frames captured while the session was locked show the lock screen, and
    /// suspend can leave sessions stale.
    RefreshCaptures,
    /// Geometry of the bar and outputs, with a pause flag.
    BarFilter(BarFilter),
}

/// What is asked of the compositor.
pub enum Step {
    ActivateWorkspace(u64),
    RenameWorkspace(u64, String),
    /// Make the workspace requests take effect.
    Commit,
    /// Activate the window at this place of the list of windows.
    ActivateToplevel(usize),
    StartSession(CaptureSource),
    StopSession(CaptureSource),
    RemoveTimer(u64),
    RequestFrame(CaptureSource),
}

/// What the compositor offers at the moment.
pub struct Compositor {
    /// Workspace requests can be committed.
    pub workspace_manager: bool,
    pub workspaces: Vec<WorkspaceInfo>,
    pub toplevels: Vec<Toplevel>,
    /// Windows can be activated.
    pub toplevel_manager: bool,
    /// There is a seat to activate them for.
    pub seat: bool,
}

/// A captured source and its session, if it runs.
pub struct Capture {
    pub source: CaptureSource,
    pub session: Option<ScreencopySession>,
}

pub struct Backend {
    pub captures: Vec<Capture>,
    pub bar_filter: Option<BarFilter>,
}

/// A captured frame of a known size, as far as it could be read.
pub enum Frame<'a> {
    /// All pixels, with the length of a row in bytes.
    Raw { data: &'a [u8], stride: usize },
    /// The GPU has scaled it down already.
    Scaled { width: u32, height: u32, pixels: Vec<u8> },
    Unreadable,
}

impl<'a> Frame<'a> {
    /// The frame holds what its size says, and scales down to a size that the
    /// strip of the bar can be found in.
    pub open spec fn complete(self, size: (u32, u32), target: u32) -> bool {
        match self {
            Frame::Raw { data, stride } => {
                &&& size.0 >= 1
                &&& size.1 >= 1
                &&& pixels::rows_present(size.0, size.1, data@.len(), stride as nat, target)
                &&& pixels::preview_width(size.0, target) <= i32::MAX
                &&& pixels::preview_height(size.0, size.1, target) <= i32::MAX
            },
            Frame::Scaled { width, height, pixels } => {
                &&& width <= i32::MAX
                &&& height <= i32::MAX
                &&& pixels@.len() == width * height * 4
            },
            Frame::Unreadable => true,
        }
    }

    /// `small` is the frame at the size of a preview.
    pub open spec fn scales_to(
        self,
        size: (u32, u32),
        target: u32,
        small: (u32, u32, Seq<u8>),
    ) -> bool {
        match self {
            Frame::Raw { data, stride } => {
                &&& small.0 == pixels::preview_width(size.0, target)
                &&& small.1 == pixels::preview_height(size.0, size.1, target)
                &&& small.2.len() == small.0 * small.1 * 4
                &&& forall|x: int, y: int, c: int|
                    0 <= x < small.0 && 0 <= y < small.1 && 0 <= c < 4
                        ==> #[trigger] pixels::channel(small.2, small.0 as int, x, y, c)
                        == data@[pixels::sample(y, pixels::preview_scale(size.0, target), size.1)
                        * stride + pixels::sample(
                        x,
                        pixels::preview_scale(size.0, target),
                        size.0,
                    ) * 4 + c]
            },
            Frame::Scaled { width, height, pixels } => small == (width, height, pixels@),
            Frame::Unreadable => false,
        }
    }

    /// The frame at the size of a preview.
    fn scale(self, size: (u32, u32), target: u32) -> (res: Option<(u32, u32, Vec<u8>)>)
        requires
            self.complete(size, target),
        ensures
            res is None == (self is Unreadable),
            res matches Some(small) ==> {
                &&& self.scales_to(size, target, (small.0, small.1, small.2@))
                &&& small.0 <= i32::MAX
                &&& small.1 <= i32::MAX
                &&& small.2@.len() == small.0 * small.1 * 4
            },
    {
        match self {
            Frame::Raw { data, stride } => Some(
                pixels::downscale(size.0, size.1, data, stride, target),
            ),
            Frame::Scaled { width, height, pixels } => Some((width, height, pixels)),
            Frame::Unreadable => None,
        }
    }
}

/// What follows a captured frame.
pub enum Ready {
    /// The session has ended, or the frame could not be read.
    Nothing,
    /// Ask for the next frame after so many milliseconds, and show the image.
    Next { delay: u64, image: Option<CaptureImage> },
}

/// The seat that windows are activated for: the first that appeared.
pub struct Seat {
    pub current: Option<u64>,
}

impl Seat {
    pub fn new_seat(&mut self, seat: u64)
        ensures
            final(self).current == if old(self).current is None {
                Some(seat)
            } else {
                old(self).current
            },
    {
        if self.current.is_none() {
            self.current = Some(seat);
        }
    }

    pub fn remove_seat(&mut self, seat: u64)
        ensures
            final(self).current == if old(self).current == Some(seat) {
                None
            } else {
                old(self).current
            },
    {
        match self.current {
            Some(s) => if s == seat {
                self.current = None;
            },
            None => {},
        }
    }
}

/// The session of a source, if it runs.
pub open spec fn session_of(list: Seq<Capture>, source: CaptureSource) -> Option<ScreencopySession>
    decreases list.len(),
{
    if list.len() == 0 {
        None
    } else if list.last().source == source {
        list.last().session
    } else {
        session_of(list.drop_last(), source)
    }
}

/// The captures after the session of a source has become `session`.
pub open spec fn with_session(
    list: Seq<Capture>,
    source: CaptureSource,
    session: Option<ScreencopySession>,
) -> Seq<Capture> {
    list.map_values(
        |c: Capture|
            if c.source == source {
                Capture { source, session }
            } else {
                c
            },
    )
}

/// `source` is among the captures.
pub open spec fn captured(list: Seq<Capture>, source: CaptureSource) -> bool {
    exists|i: int| 0 <= i < list.len() && (#[trigger] list[i]).source == source
}

/// The captures with all sessions ended.
pub open spec fn ended(list: Seq<Capture>) -> Seq<Capture> {
    list.map_values(|c: Capture| Capture { source: c.source, session: None })
}

/// The steps that end all running sessions.
pub open spec fn end_steps(list: Seq<Capture>) -> Seq<Step>
    decreases list.len(),
{
    if list.len() == 0 {
        Seq::empty()
    } else if list.last().session is Some {
        end_steps(list.drop_last()).push(Step::StopSession(list.last().source))
    } else {
        end_steps(list.drop_last())
    }
}

/// The captures with a session for each.
pub open spec fn running(list: Seq<Capture>) -> Seq<Capture> {
    list.map_values(
        |c: Capture|
            if c.session is Some {
                c
            } else {
                Capture { source: c.source, session: Some(ScreencopySession::fresh()) }
            },
    )
}

/// The steps that start the missing sessions.
pub open spec fn start_steps(list: Seq<Capture>) -> Seq<Step>
    decreases list.len(),
{
    if list.len() == 0 {
        Seq::empty()
    } else if list.last().session is None {
        start_steps(list.drop_last()).push(Step::StartSession(list.last().source))
    } else {
        start_steps(list.drop_last())
    }
}

/// The captures whose sources are still live.
pub open spec fn kept(list: Seq<Capture>, live: Seq<CaptureSource>) -> Seq<Capture>
    decreases list.len(),
{
    if list.len() == 0 {
        Seq::empty()
    } else if live.contains(list.last().source) {
        kept(list.drop_last(), live).push(list.last())
    } else {
        kept(list.drop_last(), live)
    }
}

/// The captures whose sources are gone.
pub open spec fn dropped(list: Seq<Capture>, live: Seq<CaptureSource>) -> Seq<Capture>
    decreases list.len(),
{
    if list.len() == 0 {
        Seq::empty()
    } else if live.contains(list.last().source) {
        dropped(list.drop_last(), live)
    } else {
        dropped(list.drop_last(), live).push(list.last())
    }
}

/// A capture of a new source.
pub open spec fn new_capture(source: CaptureSource, paused: bool) -> Capture {
    Capture {
        source,
        session: if paused {
            None
        } else {
            Some(ScreencopySession::fresh())
        },
    }
}

/// The captures with `sources` added, none twice.
pub open spec fn extended(
    list: Seq<Capture>,
    sources: Seq<CaptureSource>,
    paused: bool,
) -> Seq<Capture>
    decreases sources.len(),
{
    if sources.len() == 0 {
        list
    } else {
        let rest = extended(list, sources.drop_last(), paused);
        if captured(rest, sources.last()) {
            rest
        } else {
            rest.push(new_capture(sources.last(), paused))
        }
    }
}

/// The steps that start the sessions of the added sources.
pub open spec fn extend_steps(
    list: Seq<Capture>,
    sources: Seq<CaptureSource>,
    paused: bool,
) -> Seq<Step>
    decreases sources.len(),
{
    if sources.len() == 0 {
        Seq::empty()
    } else {
        let rest = extended(list, sources.drop_last(), paused);
        let steps = extend_steps(list, sources.drop_last(), paused);
        if captured(rest, sources.last()) || paused {
            steps
        } else {
            steps.push(Step::StartSession(sources.last()))
        }
    }
}

/// The captures with every delay brought back to the shortest.
pub open spec fn hurried(list: Seq<Capture>) -> Seq<Capture> {
    list.map_values(
        |c: Capture|
            Capture {
                source: c.source,
                session: match c.session {
                    Some(s) => Some(s.hurried()),
                    None => None,
                },
            },
    )
}

/// The steps that bring the requests forward which wait for a timer.
pub open spec fn hurry_steps(list: Seq<Capture>) -> Seq<Step>
    decreases list.len(),
{
    if list.len() == 0 {
        Seq::empty()
    } else {
        let steps = hurry_steps(list.drop_last());
        match list.last().session {
            Some(s) => match s.given_up_timer() {
                Some(token) => if s.has_buffers {
                    steps.push(Step::RemoveTimer(token)).push(
                        Step::RequestFrame(list.last().source),
                    )
                } else {
                    steps.push(Step::RemoveTimer(token))
                },
                None => steps,
            },
            None => steps,
        }
    }
}

/// One text holds the other.
pub open spec fn related(a: Seq<char>, b: Seq<char>) -> bool {
    a == b || occurs_in(a, b) || occurs_in(b, a)
}

/// A window belongs to an app: one of the two ids holds the other, ignoring
/// case. Players and windows name one app differently, as in `spotify` and
/// `com.spotify.Client`.
pub open spec fn belongs(t: Toplevel, app_id: Seq<char>) -> bool {
    related(lowered(t.app_id@), lowered(app_id))
}

/// `at` is the place of the first window of an app; `None` if it has none.
pub open spec fn first_window(list: Seq<Toplevel>, app_id: Seq<char>, at: Option<usize>) -> bool {
    match at {
        Some(i) => i < list.len() && belongs(list[i as int], app_id) && forall|k: int|
            0 <= k < i ==> !belongs(#[trigger] list[k], app_id),
        None => forall|k: int| 0 <= k < list.len() ==> !belongs(#[trigger] list[k], app_id),
    }
}

/// The steps that switch to a workspace.
pub open spec fn switch_steps(workspace: u64, manager: bool) -> Seq<Step> {
    if manager {
        seq![Step::ActivateWorkspace(workspace), Step::Commit]
    } else {
        Seq::empty()
    }
}

/// The steps that bring up the window at `at`: its first workspace, then the
/// window itself.
pub open spec fn window_steps(c: Compositor, at: usize) -> Seq<Step> {
    let t = c.toplevels@[at as int];
    let switch = if t.workspaces@.len() > 0 {
        switch_steps(t.workspaces@[0], c.workspace_manager)
    } else {
        Seq::empty()
    };
    if c.toplevel_manager && t.cosmic_toplevel && c.seat {
        switch.push(Step::ActivateToplevel(at))
    } else {
        switch
    }
}

/// The compositor offers its extension for a workspace; of several entries for
/// one workspace the first counts.
pub open spec fn has_extension(list: Seq<WorkspaceInfo>, handle: u64) -> bool
    decreases list.len(),
{
    list.len() > 0 && if list[0].handle == handle {
        list[0].cosmic_handle
    } else {
        has_extension(list.skip(1), handle)
    }
}

/// Place and group of the workspaces that have a description, group by group.
pub open spec fn group_listing(
    members: Seq<u64>,
    group: usize,
    infos: Seq<WorkspaceInfo>,
) -> Seq<(usize, usize)>
    decreases members.len(),
{
    if members.len() == 0 {
        Seq::empty()
    } else {
        let rest = group_listing(members.drop_last(), group, infos);
        match described(infos, members.last()) {
            Some(i) => rest.push((group, i)),
            None => rest,
        }
    }
}

/// The place of the description of a workspace.
pub open spec fn described(infos: Seq<WorkspaceInfo>, handle: u64) -> Option<usize>
    decreases infos.len(),
{
    if infos.len() == 0 {
        None
    } else {
        match described(infos.drop_last(), handle) {
            Some(i) => Some(i),
            None => if infos.last().handle == handle {
                Some((infos.len() - 1) as usize)
            } else {
                None
            },
        }
    }
}

/// Group and place of every described workspace, in the order of the groups.
pub open spec fn listing(groups: Seq<Group>, infos: Seq<WorkspaceInfo>) -> Seq<(usize, usize)>
    decreases groups.len(),
{
    if groups.len() == 0 {
        Seq::empty()
    } else {
        listing(groups.drop_last(), infos) + group_listing(
            groups.last().workspaces@,
            (groups.len() - 1) as usize,
            infos,
        )
    }
}

/// The sources to capture for a listing.
pub open spec fn listed_sources(
    list: Seq<(usize, usize)>,
    infos: Seq<WorkspaceInfo>,
) -> Seq<CaptureSource> {
    list.map_values(|e: (usize, usize)| CaptureSource::Workspace(infos[e.1 as int].handle))
}

/// Whether one text holds the other.
pub fn texts_related(a: &str, b: &str) -> (res: bool)
    ensures
        res == related(a@, b@),
{
    contains(a, b) || contains(b, a) || crate::text::same_text(a, b)
}

/// The first window that belongs to an app.
pub fn find_toplevel(list: &Vec<Toplevel>, app_id: &str) -> (at: Option<usize>)
    ensures
        first_window(list@, app_id@, at),
{
    let needle: String = app_id.to_lowercase();
    let mut i: usize = 0;
    while i < list.len()
        invariant
            i <= list.len(),
            needle@ == lowered(app_id@),
            forall|k: int| 0 <= k < i ==> !belongs(#[trigger] list@[k], app_id@),
        decreases list.len() - i,
    {
        let hay: String = list[i].app_id.to_lowercase();
        if texts_related(&hay, &needle) {
            return Some(i);
        }
        i = i + 1;
    }
    None
}

/// Bring up the window of an app and switch to its workspace.
pub fn activate_toplevel_by_app_id(app_id: &str, compositor: &Compositor) -> (steps: Vec<Step>)
    ensures
        exists|at: Option<usize>| #[trigger]
            first_window(compositor.toplevels@, app_id@, at) && steps@ == (match at {
                Some(i) => window_steps(*compositor, i),
                None => Seq::empty(),
            }),
{
    let mut steps: Vec<Step> = Vec::new();
    let found: Option<usize> = find_toplevel(&compositor.toplevels, app_id);
    match found {
        Some(i) => {
            let t: &Toplevel = &compositor.toplevels[i];
            if t.workspaces.len() > 0 && compositor.workspace_manager {
                steps.push(Step::ActivateWorkspace(t.workspaces[0]));
                steps.push(Step::Commit);
            }
            if compositor.toplevel_manager && t.cosmic_toplevel && compositor.seat {
                steps.push(Step::ActivateToplevel(i));
            }
            assert(steps@ =~= window_steps(*compositor, i));
        },
        None => {},
    }
    assert(first_window(compositor.toplevels@, app_id@, found));
    steps
}

fn extension_offered(list: &Vec<WorkspaceInfo>, handle: u64) -> (res: bool)
    ensures
        res == has_extension(list@, handle),
{
    let mut i: usize = 0;
    assert(list@.skip(0) =~= list@);
    while i < list.len()
        invariant
            i <= list.len(),
            has_extension(list@, handle) == has_extension(list@.skip(i as int), handle),
        decreases list.len() - i,
    {
        if list[i].handle == handle {
            return list[i].cosmic_handle;
        }
        assert(list@.skip(i as int).skip(1) =~= list@.skip(i + 1));
        i = i + 1;
    }
    false
}

fn find_description(infos: &Vec<WorkspaceInfo>, handle: u64) -> (at: Option<usize>)
    ensures
        at == described(infos@, handle),
        at matches Some(i) ==> i < infos@.len(),
{
    let mut i: usize = 0;
    let mut found: Option<usize> = None;
    assert(infos@.take(0) =~= Seq::empty());
    while i < infos.len()
        invariant
            i <= infos.len(),
            found == described(infos@.take(i as int), handle),
            found matches Some(k) ==> k < i,
        decreases infos.len() - i,
    {
        assert(infos@.take(i + 1).drop_last() =~= infos@.take(i as int));
        if found.is_none() && infos[i].handle == handle {
            found = Some(i);
        }
        i = i + 1;
    }
    assert(infos@.take(infos@.len() as int) =~= infos@);
    found
}

/// Group and place of every described workspace, in the order of the groups.
pub fn list_workspaces(groups: &Vec<Group>, infos: &Vec<WorkspaceInfo>) -> (list: Vec<
    (usize, usize),
>)
    ensures
        list@ == listing(groups@, infos@),
        forall|k: int|
            0 <= k < list@.len() ==> (#[trigger] list@[k]).0 < groups@.len() && list@[k].1
                < infos@.len(),
{
    let mut list: Vec<(usize, usize)> = Vec::new();
    let mut g: usize = 0;
    assert(groups@.take(0) =~= Seq::empty());
    while g < groups.len()
        invariant
            g <= groups.len(),
            list@ == listing(groups@.take(g as int), infos@),
            forall|k: int|
                0 <= k < list@.len() ==> (#[trigger] list@[k]).0 < groups@.len() && list@[k].1
                    < infos@.len(),
        decreases groups.len() - g,
    {
        let ghost head = list@;
        let ghost members = groups@[g as int].workspaces@;
        let mut m: usize = 0;
        assert(members.take(0) =~= Seq::empty());
        assert(head + group_listing(members.take(0), g, infos@) =~= head);
        while m < groups[g].workspaces.len()
            invariant
                g < groups.len(),
                members == groups@[g as int].workspaces@,
                m <= members.len(),
                list@ == head + group_listing(members.take(m as int), g, infos@),
                forall|k: int|
                    0 <= k < list@.len() ==> (#[trigger] list@[k]).0 < groups@.len() && list@[k].1
                        < infos@.len(),
            decreases members.len() - m,
        {
            let handle: u64 = groups[g].workspaces[m];
            assert(members.take(m + 1).drop_last() =~= members.take(m as int));
            let ghost rest = group_listing(members.take(m as int), g, infos@);
            match find_description(infos, handle) {
                Some(i) => {
                    list.push((g, i));
                    assert((head + rest).push((g, i)) =~= head + rest.push((g, i)));
                },
                None => {},
            }
            m = m + 1;
        }
        assert(members.take(members.len() as int) =~= members);
        assert(groups@.take(g + 1).drop_last() =~= groups@.take(g as int));
        g = g + 1;
    }
    assert(groups@.take(groups@.len() as int) =~= groups@);
    list
}

impl Backend {
    /// No source is captured twice, every session is valid, and none runs while
    /// captures are paused.
    pub open spec fn valid(self) -> bool {
        &&& self.sound()
        &&& self.paused() ==> forall|i: int|
            0 <= i < self.captures@.len() ==> (#[trigger] self.captures@[i]).session is None
    }

    /// No source is captured twice, and every session is valid.
    pub open spec fn sound(self) -> bool {
        &&& forall|i: int, j: int|
            0 <= i < j < self.captures@.len() ==> (#[trigger] self.captures@[i]).source != (
            #[trigger] self.captures@[j]).source
        &&& forall|i: int|
            0 <= i < self.captures@.len() ==> ((#[trigger] self.captures@[i]).session matches Some(
                s,
            ) ==> s.valid())
    }

    pub open spec fn paused(self) -> bool {
        self.bar_filter matches Some(f) && f.paused
    }

    pub fn new() -> (b: Backend)
        ensures
            b.valid(),
            b.captures@.len() == 0,
            b.bar_filter is None,
    {
        Backend { captures: Vec::new(), bar_filter: None }
    }

    pub fn captures_paused(&self) -> (b: bool)
        ensures
            b == self.paused(),
    {
        match &self.bar_filter {
            Some(f) => f.paused,
            None => false,
        }
    }

    /// End all sessions.
    fn stop_all(&mut self) -> (steps: Vec<Step>)
        requires
            old(self).sound(),
        ensures
            final(self).valid(),
            final(self).bar_filter == old(self).bar_filter,
            final(self).captures@ == ended(old(self).captures@),
            steps@ == end_steps(old(self).captures@),
    {
        let mut steps: Vec<Step> = Vec::new();
        let mut i: usize = 0;
        let ghost all = self.captures@;
        while i < self.captures.len()
            invariant
                i <= self.captures@.len(),
                self.captures@.len() == all.len(),
                self.bar_filter == old(self).bar_filter,
                forall|k: int|
                    0 <= k < i ==> #[trigger] self.captures@[k] == (Capture {
                        source: all[k].source,
                        session: None,
                    }),
                forall|k: int| i <= k < all.len() ==> #[trigger] self.captures@[k] == all[k],
                steps@ == end_steps(all.take(i as int)),
            decreases self.captures@.len() - i,
        {
            assert(all.take(i + 1).drop_last() =~= all.take(i as int));
            assert(self.captures@[i as int] == all[i as int]);
            if self.captures[i].session.is_some() {
                steps.push(Step::StopSession(self.captures[i].source));
            }
            self.captures[i].session = None;
            i = i + 1;
        }
        assert(all.take(all.len() as int) =~= all);
        assert(self.captures@ =~= ended(all));
        steps
    }

    /// Start the sessions that do not run.
    fn start_all(&mut self) -> (steps: Vec<Step>)
        requires
            old(self).sound(),
            !old(self).paused(),
        ensures
            final(self).valid(),
            final(self).bar_filter == old(self).bar_filter,
            final(self).captures@ == running(old(self).captures@),
            steps@ == start_steps(old(self).captures@),
    {
        let mut steps: Vec<Step> = Vec::new();
        let mut i: usize = 0;
        let ghost all = self.captures@;
        while i < self.captures.len()
            invariant
                i <= self.captures@.len(),
                self.captures@.len() == all.len(),
                self.bar_filter == old(self).bar_filter,
                forall|k: int| 0 <= k < i ==> #[trigger] self.captures@[k] == running(all)[k],
                forall|k: int| i <= k < all.len() ==> #[trigger] self.captures@[k] == all[k],
                steps@ == start_steps(all.take(i as int)),
            decreases self.captures@.len() - i,
        {
            assert(all.take(i + 1).drop_last() =~= all.take(i as int));
            assert(self.captures@[i as int] == all[i as int]);
            if self.captures[i].session.is_none() {
                steps.push(Step::StartSession(self.captures[i].source));
                self.captures[i].session = Some(ScreencopySession::new());
            }
            i = i + 1;
        }
        assert(all.take(all.len() as int) =~= all);
        assert(self.captures@ =~= running(all));
        steps
    }

    /// The place of a captured source.
    fn position(&self, source: &CaptureSource) -> (at: Option<usize>)
        ensures
            at is Some == captured(self.captures@, *source),
            at matches Some(i) ==> i < self.captures@.len() && self.captures@[i as int].source
                == *source,
    {
        let mut i: usize = 0;
        while i < self.captures.len()
            invariant
                i <= self.captures@.len(),
                forall|k: int| 0 <= k < i ==> (#[trigger] self.captures@[k]).source != *source,
            decreases self.captures@.len() - i,
        {
            if self.captures[i].source == *source {
                return Some(i);
            }
            i = i + 1;
        }
        None
    }

    /// Capture a source, if it is not captured yet.
    pub fn add_capture_source(&mut self, source: CaptureSource) -> (steps: Vec<Step>)
        requires
            old(self).valid(),
        ensures
            final(self).valid(),
            final(self).bar_filter == old(self).bar_filter,
            captured(old(self).captures@, source) ==> final(self).captures@ == old(self).captures@
                && steps@.len() == 0,
            !captured(old(self).captures@, source) ==> {
                &&& final(self).captures@ == old(self).captures@.push(
                    new_capture(source, old(self).paused()),
                )
                &&& steps@ == if old(self).paused() {
                    Seq::empty()
                } else {
                    seq![Step::StartSession(source)]
                }
            },
    {
        let mut steps: Vec<Step> = Vec::new();
        if self.position(&source).is_some() {
            return steps;
        }
        if self.captures_paused() {
            self.captures.push(Capture { source, session: None });
        } else {
            self.captures.push(Capture { source, session: Some(ScreencopySession::new()) });
            steps.push(Step::StartSession(source));
        }
        steps
    }

    /// Give up the sources that are not live.
    pub fn retain_capture_sources(&mut self, live: &Vec<CaptureSource>) -> (steps: Vec<Step>)
        requires
            old(self).valid(),
        ensures
            final(self).valid(),
            final(self).bar_filter == old(self).bar_filter,
            final(self).captures@ == kept(old(self).captures@, live@),
            steps@ == end_steps(dropped(old(self).captures@, live@)),
    {
        let mut steps: Vec<Step> = Vec::new();
        let mut i: usize = 0;
        let ghost all = self.captures@;
        let ghost mut done: int = 0;
        assert(all.skip(0) =~= all);
        assert(all.take(0) =~= Seq::empty());
        while i < self.captures.len()
            invariant
                0 <= done <= all.len(),
                i == kept(all.take(done), live@).len(),
                self.captures@ =~= kept(all.take(done), live@) + all.skip(done),
                self.bar_filter == old(self).bar_filter,
                steps@ == end_steps(dropped(all.take(done), live@)),
            decreases all.len() - done,
        {
            let ghost head = kept(all.take(done), live@);
            let ghost gone = dropped(all.take(done), live@);
            assert(done < all.len());
            assert(self.captures@[i as int] == all[done]);
            assert(all.take(done + 1).drop_last() =~= all.take(done));
            assert(all.take(done + 1).last() == all[done]);
            assert(all.skip(done).skip(1) =~= all.skip(done + 1));
            if has_source(live, &self.captures[i].source) {
                i = i + 1;
                assert(head.push(all[done]) + all.skip(done + 1) =~= head + all.skip(done));
            } else {
                if self.captures[i].session.is_some() {
                    steps.push(Step::StopSession(self.captures[i].source));
                }
                let _ = self.captures.remove(i);
                assert(gone.push(all[done]).drop_last() =~= gone);
                assert(self.captures@ =~= head + all.skip(done + 1));
            }
            proof {
                done = done + 1;
            }
        }
        assert(all.skip(done).len() == 0);
        assert(all.take(done) =~= all);
        proof {
            lemma_kept_from(all, live@);
        }
        steps
    }

    /// Bring every delay back to the shortest and ask at once for the frames
    /// that wait for a timer; for workspace changes.
    pub fn reset_capture_intervals(&mut self) -> (steps: Vec<Step>)
        requires
            old(self).valid(),
        ensures
            final(self).valid(),
            final(self).bar_filter == old(self).bar_filter,
            final(self).captures@ == hurried(old(self).captures@),
            steps@ == hurry_steps(old(self).captures@),
    {
        let mut steps: Vec<Step> = Vec::new();
        let mut i: usize = 0;
        let ghost all = self.captures@;
        while i < self.captures.len()
            invariant
                i <= self.captures@.len(),
                self.captures@.len() == all.len(),
                self.bar_filter == old(self).bar_filter,
                old(self).valid(),
                all == old(self).captures@,
                forall|k: int| 0 <= k < i ==> #[trigger] self.captures@[k] == hurried(all)[k],
                forall|k: int| i <= k < all.len() ==> #[trigger] self.captures@[k] == all[k],
                steps@ == hurry_steps(all.take(i as int)),
            decreases self.captures@.len() - i,
        {
            assert(all.take(i + 1).drop_last() =~= all.take(i as int));
            assert(self.captures@[i as int] == all[i as int]);
            let source: CaptureSource = self.captures[i].source;
            let session: Option<ScreencopySession> = self.captures[i].session.take();
            match session {
                Some(mut s) => {
                    let ready: bool = s.has_buffers;
                    match s.reset_interval() {
                        Some(token) => {
                            steps.push(Step::RemoveTimer(token));
                            if ready {
                                steps.push(Step::RequestFrame(source));
                            }
                        },
                        None => {},
                    }
                    self.captures[i].session = Some(s);
                },
                None => {},
            }
            i = i + 1;
        }
        assert(all.take(all.len() as int) =~= all);
        assert(self.captures@ =~= hurried(all));
        steps
    }

    /// The compositor's workspaces have changed: exactly the listed ones are
    /// captured from now on, and their previews are refreshed promptly.
    pub fn workspaces_done(&mut self, groups: &Vec<Group>, infos: &Vec<WorkspaceInfo>) -> (res: (
        Vec<(usize, usize)>,
        Vec<Step>,
    ))
        requires
            old(self).valid(),
        ensures
            final(self).valid(),
            final(self).bar_filter == old(self).bar_filter,
            res.0@ == listing(groups@, infos@),
            ({
                let sources = listed_sources(res.0@, infos@);
                let left = kept(old(self).captures@, sources);
                let all = extended(left, sources, old(self).paused());
                &&& final(self).captures@ == hurried(all)
                &&& res.1@ == end_steps(dropped(old(self).captures@, sources)) + extend_steps(
                    left,
                    sources,
                    old(self).paused(),
                ) + hurry_steps(all)
            }),
            forall|source: CaptureSource| #[trigger]
                captured(final(self).captures@, source) == listed_sources(
                    res.0@,
                    infos@,
                ).contains(source),
            forall|i: int|
                0 <= i < final(self).captures@.len() ==> ((#[trigger] final(self).captures@[i]).session
                    matches Some(s) ==> s.interval == 100),
    {
        let list: Vec<(usize, usize)> = list_workspaces(groups, infos);
        let mut sources: Vec<CaptureSource> = Vec::new();
        let mut k: usize = 0;
        while k < list.len()
            invariant
                k <= list@.len(),
                list@ == listing(groups@, infos@),
                forall|j: int|
                    0 <= j < list@.len() ==> (#[trigger] list@[j]).0 < groups@.len() && list@[j].1
                        < infos@.len(),
                sources@ =~= listed_sources(list@, infos@).take(k as int),
            decreases list@.len() - k,
        {
            assert(list@[k as int].1 < infos@.len());
            let at: usize = list[k].1;
            sources.push(CaptureSource::Workspace(infos[at].handle));
            k = k + 1;
        }
        assert(sources@ =~= listed_sources(list@, infos@));
        let mut steps: Vec<Step> = self.retain_capture_sources(&sources);
        let ghost first = steps@;
        let ghost left = self.captures@;
        let ghost paused = self.paused();
        let mut n: usize = 0;
        assert(sources@.take(0) =~= Seq::empty());
        assert(first + extend_steps(left, sources@.take(0), paused) =~= first);
        while n < sources.len()
            invariant
                n <= sources@.len(),
                self.valid(),
                self.bar_filter == old(self).bar_filter,
                self.paused() == paused,
                self.captures@ == extended(left, sources@.take(n as int), paused),
                steps@ == first + extend_steps(left, sources@.take(n as int), paused),
            decreases sources@.len() - n,
        {
            assert(sources@.take(n + 1).drop_last() =~= sources@.take(n as int));
            let ghost so_far = steps@;
            let ghost added = extend_steps(left, sources@.take(n as int), paused);
            let source: CaptureSource = sources[n];
            let mut more: Vec<Step> = self.add_capture_source(source);
            let ghost next = more@;
            steps.append(&mut more);
            assert(so_far + next =~= first + (added + next));
            assert(added + Seq::<Step>::empty() =~= added);
            assert(added + seq![Step::StartSession(source)] =~= added.push(
                Step::StartSession(source),
            ));
            assert(next.len() == 0 ==> next =~= Seq::<Step>::empty());
            n = n + 1;
        }
        assert(sources@.take(sources@.len() as int) =~= sources@);
        let mut last: Vec<Step> = self.reset_capture_intervals();
        steps.append(&mut last);
        proof {
            let old_list = old(self).captures@;
            assert forall|source: CaptureSource| #[trigger]
                captured(self.captures@, source) == sources@.contains(source) by {
                listed_workspaces_are_captured(old_list, sources@, paused, source);
            }
        }
        (list, steps)
    }

    /// Take in a command from the bar.
    pub fn handle_cmd(&mut self, cmd: Cmd, compositor: &Compositor) -> (steps: Vec<Step>)
        requires
            old(self).valid(),
        ensures
            final(self).valid(),
            match cmd {
                Cmd::ActivateWorkspace(ws) => {
                    &&& *final(self) == *old(self)
                    &&& steps@ == switch_steps(ws, compositor.workspace_manager)
                },
                Cmd::RenameWorkspace(ws, name) => {
                    &&& *final(self) == *old(self)
                    &&& steps@ == if !has_extension(compositor.workspaces@, ws) {
                        Seq::empty()
                    } else if compositor.workspace_manager {
                        seq![Step::RenameWorkspace(ws, name), Step::Commit]
                    } else {
                        seq![Step::RenameWorkspace(ws, name)]
                    }
                },
                Cmd::ActivateToplevelByAppId(app_id) => {
                    &&& *final(self) == *old(self)
                    &&& exists|at: Option<usize>| #[trigger]
                        first_window(compositor.toplevels@, app_id@, at) && steps@ == (match at {
                            Some(i) => window_steps(*compositor, i),
                            None => Seq::empty(),
                        })
                },
                Cmd::RefreshCaptures => {
                    &&& final(self).bar_filter == old(self).bar_filter
                    &&& final(self).captures@ == if old(self).paused() {
                        ended(old(self).captures@)
                    } else {
                        running(ended(old(self).captures@))
                    }
                    &&& steps@ == if old(self).paused() {
                        end_steps(old(self).captures@)
                    } else {
                        end_steps(old(self).captures@) + start_steps(ended(old(self).captures@))
                    }
                },
                Cmd::BarFilter(filter) => {
                    &&& final(self).bar_filter == Some(filter)
                    &&& final(self).captures@ == if filter.paused && !old(self).paused() {
                        ended(old(self).captures@)
                    } else if !filter.paused && old(self).paused() {
                        running(old(self).captures@)
                    } else {
                        old(self).captures@
                    }
                    &&& steps@ == if filter.paused && !old(self).paused() {
                        end_steps(old(self).captures@)
                    } else if !filter.paused && old(self).paused() {
                        start_steps(old(self).captures@)
                    } else {
                        Seq::empty()
                    }
                },
            },
            final(self).captures@.len() == old(self).captures@.len(),
            forall|i: int|
                0 <= i < old(self).captures@.len() ==> (#[trigger] final(self).captures@[i]).source
                    == old(self).captures@[i].source,
            cmd is RefreshCaptures && !old(self).paused() ==> forall|i: int|
                0 <= i < old(self).captures@.len() ==> (#[trigger] final(self).captures@[i]).session
                    == Some(ScreencopySession::fresh()),
            old(self).paused() && !final(self).paused() ==> forall|i: int|
                0 <= i < old(self).captures@.len() ==> (#[trigger] final(self).captures@[i]).session
                    is Some,
            !old(self).paused() && !final(self).paused() && !(cmd is RefreshCaptures)
                ==> final(self).captures@ == old(self).captures@,
    {
        let mut steps: Vec<Step> = Vec::new();
        match cmd {
            Cmd::ActivateWorkspace(ws) => {
                if compositor.workspace_manager {
                    steps.push(Step::ActivateWorkspace(ws));
                    steps.push(Step::Commit);
                }
                assert(steps@ =~= switch_steps(ws, compositor.workspace_manager));
                steps
            },
            Cmd::RenameWorkspace(ws, name) => {
                if extension_offered(&compositor.workspaces, ws) {
                    steps.push(Step::RenameWorkspace(ws, name));
                    if compositor.workspace_manager {
                        steps.push(Step::Commit);
                    }
                }
                steps
            },
            Cmd::ActivateToplevelByAppId(app_id) => activate_toplevel_by_app_id(
                &app_id,
                compositor,
            ),
            Cmd::RefreshCaptures => {
                let mut steps: Vec<Step> = self.stop_all();
                if !self.captures_paused() {
                    let mut more: Vec<Step> = self.start_all();
                    steps.append(&mut more);
                }
                steps
            },
            Cmd::BarFilter(filter) => {
                let was_paused: bool = self.captures_paused();
                let paused: bool = filter.paused;
                self.bar_filter = Some(filter);
                if paused && !was_paused {
                    self.stop_all()
                } else if !paused && was_paused {
                    self.start_all()
                } else {
                    steps
                }
            },
        }
    }

    /// Take the session of a source out of its place.
    fn take_session(&mut self, source: &CaptureSource) -> (res: Option<(usize, ScreencopySession)>)
        requires
            old(self).valid(),
        ensures
            final(self).bar_filter == old(self).bar_filter,
            match res {
                Some((i, s)) => {
                    &&& i < old(self).captures@.len()
                    &&& old(self).captures@[i as int] == (Capture {
                        source: *source,
                        session: Some(s),
                    })
                    &&& s.valid()
                    &&& session_of(old(self).captures@, *source) == Some(s)
                    &&& final(self).captures@ == old(self).captures@.update(
                        i as int,
                        Capture { source: *source, session: None },
                    )
                },
                None => {
                    &&& session_of(old(self).captures@, *source) is None
                    &&& *final(self) == *old(self)
                },
            },
    {
        let ghost all = self.captures@;
        match self.position(source) {
            Some(i) => {
                proof {
                    lemma_session_at(all, *source, i as int);
                }
                if self.captures[i].session.is_none() {
                    return None;
                }
                match self.captures[i].session.take() {
                    Some(s) => {
                        assert(self.captures@ =~= all.update(
                            i as int,
                            Capture { source: *source, session: None },
                        ));
                        Some((i, s))
                    },
                    None => None,
                }
            },
            None => {
                proof {
                    lemma_no_session(all, *source);
                }
                None
            },
        }
    }

    /// Put a session back to its place.
    fn put_session(
        &mut self,
        i: usize,
        session: Option<ScreencopySession>,
        Ghost(before): Ghost<Backend>,
    )
        requires
            before.valid(),
            i < before.captures@.len(),
            before.captures@[i as int].session is Some,
            old(self).bar_filter == before.bar_filter,
            old(self).captures@ == before.captures@.update(
                i as int,
                Capture { source: before.captures@[i as int].source, session: None },
            ),
            session matches Some(s) ==> s.valid(),
        ensures
            final(self).valid(),
            final(self).bar_filter == old(self).bar_filter,
            final(self).captures@ == with_session(
                before.captures@,
                before.captures@[i as int].source,
                session,
            ),
    {
        self.captures[i].session = session;
        assert(self.captures@ =~= with_session(
            before.captures@,
            before.captures@[i as int].source,
            session,
        ));
    }

    /// The compositor has said what a session can capture into; true if buffers
    /// are to be allocated and a frame asked for.
    pub fn init_done(&mut self, source: &CaptureSource, formats: Formats) -> (allocate: bool)
        requires
            old(self).valid(),
        ensures
            final(self).valid(),
            final(self).bar_filter == old(self).bar_filter,
            match session_of(old(self).captures@, *source) {
                Some(s) => {
                    &&& allocate == !s.has_buffers
                    &&& final(self).captures@ == with_session(
                        old(self).captures@,
                        *source,
                        Some(
                            ScreencopySession {
                                formats: Some(formats),
                                has_buffers: true,
                                in_flight: s.in_flight || allocate,
                                ..s
                            },
                        ),
                    )
                },
                None => !allocate && *final(self) == *old(self),
            },
    {
        let ghost before = *self;
        match self.take_session(source) {
            Some((i, s)) => {
                let mut session: ScreencopySession = s;
                let allocate: bool = session.init_done(formats);
                self.put_session(i, Some(session), Ghost(before));
                allocate
            },
            None => false,
        }
    }

    /// A frame of a workspace has arrived: make a preview of it, decide whether
    /// it is new, and when to ask for the next one.
    pub fn ready(
        &mut self,
        source: &CaptureSource,
        groups: &Vec<Group>,
        size: (u32, u32),
        frame: Frame,
    ) -> (next: Ready)
        requires
            old(self).valid(),
            *source is Workspace,
            frame.complete(size, target_px(old(self).bar_filter)),
        ensures
            final(self).valid(),
            final(self).bar_filter == old(self).bar_filter,
            match session_of(old(self).captures@, *source) {
                Some(s) => {
                    let arrived = ScreencopySession { in_flight: false, ..s };
                    if s.has_buffers && !(frame is Unreadable) {
                        exists|small: (u32, u32, Seq<u8>), after: ScreencopySession|
                            {
                                &&& #[trigger] frame.scales_to(
                                    size,
                                    target_px(old(self).bar_filter),
                                    small,
                                )
                                &&& next is Next
                                &&& next->delay == after.interval
                                &&& #[trigger] after.took(
                                    arrived,
                                    old(self).bar_filter,
                                    groups@,
                                    *source,
                                    (small.0, small.1),
                                    small.2,
                                    next->image,
                                )
                                &&& final(self).captures@ == with_session(
                                    old(self).captures@,
                                    *source,
                                    Some(after),
                                )
                            }
                    } else {
                        &&& next is Nothing
                        &&& final(self).captures@ == with_session(
                            old(self).captures@,
                            *source,
                            Some(arrived),
                        )
                    }
                },
                None => next is Nothing && *final(self) == *old(self),
            },
            next matches Ready::Next { delay, image } ==> 100 <= delay <= 8000 && (image is Some
                ==> delay == 100),
    {
        let ghost before = *self;
        match self.take_session(source) {
            Some((i, s)) => {
                let mut session: ScreencopySession = s;
                let ghost arrived = ScreencopySession { in_flight: false, ..session };
                if !session.frame_arrived() {
                    self.put_session(i, Some(session), Ghost(before));
                    return Ready::Nothing;
                }
                let target: u32 = preview_target(&self.bar_filter);
                match frame.scale(size, target) {
                    Some((w, h, small)) => {
                        let ghost scaled = (w, h, small@);
                        assert(frame.scales_to(size, target, scaled));
                        let image: Option<CaptureImage> = session.frame_ready(
                            &self.bar_filter,
                            groups,
                            source,
                            w,
                            h,
                            small,
                        );
                        assert(session.took(
                            arrived,
                            self.bar_filter,
                            groups@,
                            *source,
                            (w, h),
                            scaled.2,
                            image,
                        ));
                        let delay: u64 = session.interval;
                        self.put_session(i, Some(session), Ghost(before));
                        Ready::Next { delay, image }
                    },
                    None => {
                        self.put_session(i, Some(session), Ghost(before));
                        Ready::Nothing
                    },
                }
            },
            None => Ready::Nothing,
        }
    }

    /// The next request of a source waits for the timer `token`.
    pub fn wait_for(&mut self, source: &CaptureSource, token: u64)
        requires
            old(self).valid(),
        ensures
            final(self).valid(),
            final(self).bar_filter == old(self).bar_filter,
            match session_of(old(self).captures@, *source) {
                Some(s) => final(self).captures@ == with_session(
                    old(self).captures@,
                    *source,
                    Some(ScreencopySession { timer_token: Some(token), ..s }),
                ),
                None => *final(self) == *old(self),
            },
    {
        let ghost before = *self;
        match self.take_session(source) {
            Some((i, s)) => {
                let mut session: ScreencopySession = s;
                session.wait_for(token);
                self.put_session(i, Some(session), Ghost(before));
            },
            None => {},
        }
    }

    /// The timer of a source has run out; true if a frame is to be asked for.
    pub fn timer_fired(&mut self, source: &CaptureSource) -> (ask: bool)
        requires
            old(self).valid(),
        ensures
            final(self).valid(),
            final(self).bar_filter == old(self).bar_filter,
            match session_of(old(self).captures@, *source) {
                Some(s) => {
                    &&& ask == s.has_buffers
                    &&& final(self).captures@ == with_session(
                        old(self).captures@,
                        *source,
                        Some(
                            ScreencopySession {
                                timer_token: None,
                                in_flight: s.in_flight || s.has_buffers,
                                ..s
                            },
                        ),
                    )
                },
                None => !ask && *final(self) == *old(self),
            },
    {
        let ghost before = *self;
        match self.take_session(source) {
            Some((i, s)) => {
                let mut session: ScreencopySession = s;
                let ask: bool = session.timer_fired();
                self.put_session(i, Some(session), Ghost(before));
                ask
            },
            None => false,
        }
    }

    /// A capture has failed. Where the buffers do not fit any more, capturing
    /// goes on with new ones; anything else ends the session.
    pub fn failed(&mut self, source: &CaptureSource, reason: FailureReason) -> (next: Recovery)
        requires
            old(self).valid(),
        ensures
            final(self).valid(),
            final(self).bar_filter == old(self).bar_filter,
            match session_of(old(self).captures@, *source) {
                Some(s) => {
                    &&& next == if reason != FailureReason::BufferConstraints {
                        Recovery::Stop
                    } else if s.formats is Some {
                        Recovery::Reallocate
                    } else if s.has_buffers {
                        Recovery::Retry
                    } else {
                        Recovery::Wait
                    }
                    &&& final(self).captures@ == with_session(
                        old(self).captures@,
                        *source,
                        if next is Stop {
                            None
                        } else {
                            Some(
                                ScreencopySession {
                                    has_buffers: s.has_buffers || next is Reallocate,
                                    in_flight: s.in_flight || next is Reallocate || next is Retry,
                                    ..s
                                },
                            )
                        },
                    )
                },
                None => next is Wait && *final(self) == *old(self),
            },
    {
        let ghost before = *self;
        match self.take_session(source) {
            Some((i, s)) => {
                let mut session: ScreencopySession = s;
                let next: Recovery = session.failed(reason);
                match next {
                    Recovery::Stop => {
                        self.put_session(i, None, Ghost(before));
                    },
                    _ => {
                        self.put_session(i, Some(session), Ghost(before));
                    },
                }
                next
            },
            None => Recovery::Wait,
        }
    }

    /// End the session of a source; true if it ran.
    pub fn stopped(&mut self, source: &CaptureSource) -> (ran: bool)
        requires
            old(self).valid(),
        ensures
            final(self).valid(),
            final(self).bar_filter == old(self).bar_filter,
            ran == (session_of(old(self).captures@, *source) is Some),
            ran ==> final(self).captures@ == with_session(old(self).captures@, *source, None),
            !ran ==> *final(self) == *old(self),
    {
        let ghost before = *self;
        match self.take_session(source) {
            Some((i, _)) => {
                self.put_session(i, None, Ghost(before));
                true
            },
            None => false,
        }
    }
}

proof fn lemma_session_at(list: Seq<Capture>, source: CaptureSource, i: int)
    requires
        0 <= i < list.len(),
        list[i].source == source,
        forall|a: int, b: int|
            0 <= a < b < list.len() ==> (#[trigger] list[a]).source != (#[trigger] list[b]).source,
    ensures
        session_of(list, source) == list[i].session,
    decreases list.len(),
{
    if i < list.len() - 1 {
        assert(list[i].source != list[list.len() - 1].source);
        assert forall|a: int, b: int| 0 <= a < b < list.drop_last().len() implies (
        #[trigger] list.drop_last()[a]).source != (#[trigger] list.drop_last()[b]).source by {
            assert(list[a].source != list[b].source);
        }
        lemma_session_at(list.drop_last(), source, i);
    }
}

proof fn lemma_no_session(list: Seq<Capture>, source: CaptureSource)
    requires
        !captured(list, source),
    ensures
        session_of(list, source) is None,
    decreases list.len(),
{
    if list.len() > 0 {
        assert(list[list.len() - 1].source != source);
        assert(!captured(list.drop_last(), source)) by {
            if captured(list.drop_last(), source) {
                let i = choose|i: int|
                    0 <= i < list.drop_last().len() && (#[trigger] list.drop_last()[i]).source
                        == source;
                assert(list[i].source == source);
            }
        }
        lemma_no_session(list.drop_last(), source);
    }
}

proof fn lemma_captured_push(list: Seq<Capture>, c: Capture, source: CaptureSource)
    ensures
        captured(list.push(c), source) == (captured(list, source) || c.source == source),
{
    let more = list.push(c);
    if captured(list, source) {
        let i = choose|i: int| 0 <= i < list.len() && (#[trigger] list[i]).source == source;
        assert(more[i].source == source);
    }
    if c.source == source {
        assert(more[list.len() as int].source == source);
    }
    if captured(more, source) {
        let i = choose|i: int| 0 <= i < more.len() && (#[trigger] more[i]).source == source;
        if i < list.len() {
            assert(list[i].source == source);
        }
    }
}

proof fn lemma_kept_captured(list: Seq<Capture>, live: Seq<CaptureSource>, source: CaptureSource)
    ensures
        captured(kept(list, live), source) == (captured(list, source) && live.contains(source)),
    decreases list.len(),
{
    if list.len() > 0 {
        lemma_kept_captured(list.drop_last(), live, source);
        lemma_captured_push(kept(list.drop_last(), live), list.last(), source);
        lemma_captured_push(list.drop_last(), list.last(), source);
        assert(list.drop_last().push(list.last()) =~= list);
    }
}

proof fn lemma_extended_captured(
    list: Seq<Capture>,
    sources: Seq<CaptureSource>,
    paused: bool,
    source: CaptureSource,
)
    ensures
        captured(extended(list, sources, paused), source) == (captured(list, source)
            || sources.contains(source)),
    decreases sources.len(),
{
    if sources.len() > 0 {
        let front = sources.drop_last();
        let rest = extended(list, front, paused);
        lemma_extended_captured(list, front, paused, source);
        lemma_captured_push(rest, new_capture(sources.last(), paused), source);
        assert(front.push(sources.last()) =~= sources);
        if sources.contains(source) && source != sources.last() {
            let i = choose|i: int| 0 <= i < sources.len() && sources[i] == source;
            assert(front[i] == source);
        }
        if front.contains(source) {
            let i = choose|i: int| 0 <= i < front.len() && front[i] == source;
            assert(sources[i] == source);
        }
        if source == sources.last() {
            assert(sources[sources.len() - 1] == source);
        }
    }
}

/// Refreshing starts every capture over, without a memory of frames or delays:
/// all of what ran before ends, and each source gets a new session.
pub proof fn refreshing_starts_over(list: Seq<Capture>, i: int)
    requires
        0 <= i < list.len(),
    ensures
        running(ended(list)).len() == list.len(),
        running(ended(list))[i] == (Capture {
            source: list[i].source,
            session: Some(ScreencopySession::fresh()),
        }),
        list[i].session is Some ==> end_steps(list).contains(Step::StopSession(list[i].source)),
        start_steps(ended(list)).contains(Step::StartSession(list[i].source)),
{
    lemma_ends(list, i);
    lemma_starts(ended(list), i);
}

proof fn lemma_ends(list: Seq<Capture>, i: int)
    requires
        0 <= i < list.len(),
    ensures
        list[i].session is Some ==> end_steps(list).contains(Step::StopSession(list[i].source)),
    decreases list.len(),
{
    if list[i].session is Some {
        let steps = end_steps(list);
        if i == list.len() - 1 {
            assert(steps.last() == Step::StopSession(list[i].source));
        } else {
            let front = list.drop_last();
            lemma_ends(front, i);
            let k = choose|k: int|
                0 <= k < end_steps(front).len() && end_steps(front)[k] == Step::StopSession(
                    list[i].source,
                );
            assert(steps[k] == Step::StopSession(list[i].source));
        }
    }
}

proof fn lemma_starts(list: Seq<Capture>, i: int)
    requires
        0 <= i < list.len(),
        list[i].session is None,
    ensures
        start_steps(list).contains(Step::StartSession(list[i].source)),
    decreases list.len(),
{
    let steps = start_steps(list);
    if i == list.len() - 1 {
        assert(steps.last() == Step::StartSession(list[i].source));
    } else {
        let front = list.drop_last();
        lemma_starts(front, i);
        let k = choose|k: int|
            0 <= k < start_steps(front).len() && start_steps(front)[k] == Step::StartSession(
                list[i].source,
            );
        assert(steps[k] == Step::StartSession(list[i].source));
    }
}

/// A change of workspaces brings every delay back to the shortest, and no
/// request that could go out waits for a timer any longer.
pub proof fn changes_hurry_captures(list: Seq<Capture>, i: int)
    requires
        0 <= i < list.len(),
    ensures
        hurried(list).len() == list.len(),
        hurried(list)[i].source == list[i].source,
        hurried(list)[i].session matches Some(s) ==> {
            &&& s.interval == CAPTURE_INTERVAL
            &&& s.timer_token is Some ==> s.in_flight
        },
{
}

/// An app whose id a window has, in whatever case, is found, whatever other
/// windows there are.
pub proof fn windows_are_found(list: Seq<Toplevel>, app_id: Seq<char>, i: int, at: Option<usize>)
    requires
        0 <= i < list.len(),
        lowered(list[i].app_id@) == lowered(app_id),
        first_window(list, app_id, at),
    ensures
        at matches Some(k) && k <= i,
{
    assert(belongs(list[i], app_id));
}

/// After the compositor's workspaces have changed, the workspaces that it lists
/// are captured, and nothing else is.
pub proof fn listed_workspaces_are_captured(
    list: Seq<Capture>,
    sources: Seq<CaptureSource>,
    paused: bool,
    source: CaptureSource,
)
    ensures
        captured(hurried(extended(kept(list, sources), sources, paused)), source)
            == sources.contains(source),
{
    let all = extended(kept(list, sources), sources, paused);
    lemma_kept_captured(list, sources, source);
    lemma_extended_captured(kept(list, sources), sources, paused, source);
    if captured(all, source) {
        let i = choose|i: int| 0 <= i < all.len() && (#[trigger] all[i]).source == source;
        assert(hurried(all)[i].source == source);
    }
    if captured(hurried(all), source) {
        let i = choose|i: int|
            0 <= i < hurried(all).len() && (#[trigger] hurried(all)[i]).source == source;
        assert(all[i].source == source);
    }
}

/// Pausing ends every session and keeps the sources; going on starts a session
/// for each of them.
pub proof fn pausing_keeps_sources(list: Seq<Capture>, source: CaptureSource)
    ensures
        captured(running(ended(list)), source) == captured(list, source),
        forall|i: int| 0 <= i < list.len() ==> (#[trigger] ended(list)[i]).session is None,
        forall|i: int|
            0 <= i < list.len() ==> (#[trigger] running(ended(list))[i]).session == Some(
                ScreencopySession::fresh(),
            ),
{
    let again = running(ended(list));
    if captured(list, source) {
        let i = choose|i: int| 0 <= i < list.len() && (#[trigger] list[i]).source == source;
        assert(again[i].source == source);
    }
    if captured(again, source) {
        let i = choose|i: int| 0 <= i < again.len() && (#[trigger] again[i]).source == source;
        assert(list[i].source == source);
    }
}

fn has_source(list: &Vec<CaptureSource>, source: &CaptureSource) -> (res: bool)
    ensures
        res == list@.contains(*source),
{
    let mut i: usize = 0;
    while i < list.len()
        invariant
            i <= list.len(),
            forall|j: int| 0 <= j < i ==> list@[j] != *source,
        decreases list.len() - i,
    {
        if list[i] == *source {
            assert(list@[i as int] == *source);
            return true;
        }
        i = i + 1;
    }
    false
}

/// What is kept comes from the list, in its order.
proof fn lemma_kept_from(list: Seq<Capture>, live: Seq<CaptureSource>)
    ensures
        forall|i: int|
            0 <= i < kept(list, live).len() ==> list.contains(#[trigger] kept(list, live)[i]),
        (forall|i: int, j: int|
            0 <= i < j < list.len() ==> (#[trigger] list[i]).source != (#[trigger] list[j]).source)
            ==> (forall|i: int, j: int|
            0 <= i < j < kept(list, live).len() ==> (#[trigger] kept(list, live)[i]).source != (
            #[trigger] kept(list, live)[j]).source),
    decreases list.len(),
{
    if list.len() > 0 {
        let head = list.drop_last();
        lemma_kept_from(head, live);
        let k = kept(list, live);
        let hk = kept(head, live);
        assert forall|i: int| 0 <= i < k.len() implies list.contains(#[trigger] k[i]) by {
            if i < hk.len() {
                assert(head.contains(hk[i]));
                let w = choose|w: int| 0 <= w < head.len() && head[w] == hk[i];
                assert(list[w] == k[i]);
            } else {
                assert(list[list.len() - 1] == k[i]);
            }
        }
        if forall|i: int, j: int|
            0 <= i < j < list.len() ==> (#[trigger] list[i]).source != (#[trigger] list[j]).source {
            assert forall|i: int, j: int| 0 <= i < j < head.len() implies (
            #[trigger] head[i]).source != (#[trigger] head[j]).source by {
                assert(list[i].source != list[j].source);
            }
            assert forall|i: int, j: int| 0 <= i < j < k.len() implies (#[trigger] k[i]).source != (
            #[trigger] k[j]).source by {
                if j < hk.len() {
                    assert(hk[i].source != hk[j].source);
                } else {
                    assert(head.contains(hk[i]));
                    let w = choose|w: int| 0 <= w < head.len() && head[w] == hk[i];
                    assert(list[w].source != list[list.len() - 1].source);
                }
            }
        }
    }
}

/// A source that stays live keeps its place in the order, and its session with the
/// frame and the delay that it has; one that is gone is captured no more, and its
/// session ends.
pub proof fn live_sources_keep_their_session(
    list: Seq<Capture>,
    live: Seq<CaptureSource>,
    paused: bool,
    i: int,
)
    requires
        0 <= i < list.len(),
    ensures
        live.contains(list[i].source) ==> extended(kept(list, live), live, paused).contains(
            list[i],
        ),
        !live.contains(list[i].source) ==> !captured(kept(list, live), list[i].source) && (
        list[i].session is Some ==> end_steps(dropped(list, live)).contains(
            Step::StopSession(list[i].source),
        )),
{
    lemma_kept_entries(list, live, i);
    if live.contains(list[i].source) {
        let left = kept(list, live);
        lemma_extended_front(left, live, paused);
        let k = left.index_of(list[i]);
        assert(extended(left, live, paused)[k] == list[i]);
    } else {
        lemma_kept_captured(list, live, list[i].source);
        let gone = dropped(list, live);
        let k = gone.index_of(list[i]);
        lemma_ends(gone, k);
    }
}

proof fn lemma_kept_entries(list: Seq<Capture>, live: Seq<CaptureSource>, i: int)
    requires
        0 <= i < list.len(),
    ensures
        live.contains(list[i].source) ==> kept(list, live).contains(list[i]),
        !live.contains(list[i].source) ==> dropped(list, live).contains(list[i]),
    decreases list.len(),
{
    let front = list.drop_last();
    if i < front.len() {
        lemma_kept_entries(front, live, i);
        assert(front[i] == list[i]);
        if live.contains(list[i].source) {
            let k = kept(front, live).index_of(list[i]);
            assert(kept(list, live)[k] == list[i]);
        } else {
            let k = dropped(front, live).index_of(list[i]);
            assert(dropped(list, live)[k] == list[i]);
        }
    } else if live.contains(list[i].source) {
        assert(kept(list, live).last() == list[i]);
    } else {
        assert(dropped(list, live).last() == list[i]);
    }
}

proof fn lemma_extended_front(list: Seq<Capture>, sources: Seq<CaptureSource>, paused: bool)
    ensures
        extended(list, sources, paused).len() >= list.len(),
        extended(list, sources, paused).take(list.len() as int) == list,
    decreases sources.len(),
{
    if sources.len() > 0 {
        lemma_extended_front(list, sources.drop_last(), paused);
        let rest = extended(list, sources.drop_last(), paused);
        assert(extended(list, sources, paused).take(list.len() as int) =~= rest.take(
            list.len() as int,
        ));
    } else {
        assert(list.take(list.len() as int) =~= list);
    }
}

/// A source that is listed and was not captured gets a fresh session at once, or
/// none while captures are paused.
pub proof fn new_sources_are_started(
    list: Seq<Capture>,
    sources: Seq<CaptureSource>,
    paused: bool,
    source: CaptureSource,
)
    requires
        sources.contains(source),
        !captured(list, source),
    ensures
        paused ==> extended(list, sources, paused).contains(Capture { source, session: None }),
        !paused ==> extended(list, sources, paused).contains(
            Capture { source, session: Some(ScreencopySession::fresh()) },
        ) && extend_steps(list, sources, paused).contains(Step::StartSession(source)),
        paused ==> extend_steps(list, sources, paused).len() == 0,
    decreases sources.len(),
{
    let front = sources.drop_last();
    let rest = extended(list, front, paused);
    let all = extended(list, sources, paused);
    let steps = extend_steps(list, front, paused);
    lemma_extended_captured(list, front, paused, source);
    lemma_paused_steps(list, sources);
    if front.contains(source) {
        new_sources_are_started(list, front, paused, source);
        if paused {
            let k = rest.index_of(Capture { source, session: None });
            assert(all[k] == rest[k]);
        } else {
            let k = rest.index_of(Capture { source, session: Some(ScreencopySession::fresh()) });
            assert(all[k] == rest[k]);
            let j = steps.index_of(Step::StartSession(source));
            assert(extend_steps(list, sources, paused)[j] == steps[j]);
        }
    } else {
        let k = sources.index_of(source);
        assert(k == sources.len() - 1) by {
            if k < sources.len() - 1 {
                assert(front[k] == source);
            }
        }
        assert(all.last() == new_capture(source, paused));
        if !paused {
            assert(extend_steps(list, sources, paused).last() == Step::StartSession(source));
        }
    }
}

proof fn lemma_paused_steps(list: Seq<Capture>, sources: Seq<CaptureSource>)
    ensures
        extend_steps(list, sources, true).len() == 0,
    decreases sources.len(),
{
    if sources.len() > 0 {
        lemma_paused_steps(list, sources.drop_last());
    }
}

/// Only running sessions are ended, and only sources without one are started.
pub proof fn steps_fit_the_sessions(list: Seq<Capture>, k: int)
    ensures
        0 <= k < end_steps(list).len() ==> end_steps(list)[k] is StopSession && runs(
            list,
            end_steps(list)[k]->StopSession_0,
            true,
        ),
        0 <= k < start_steps(list).len() ==> start_steps(list)[k] is StartSession && runs(
            list,
            start_steps(list)[k]->StartSession_0,
            false,
        ),
    decreases list.len(),
{
    if list.len() > 0 {
        let front = list.drop_last();
        steps_fit_the_sessions(front, k);
        assert forall|source: CaptureSource, running: bool| #[trigger] runs(front, source, running)
            implies runs(list, source, running) by {
            let i = choose|i: int|
                0 <= i < front.len() && (#[trigger] front[i]).source == source && (
                front[i].session is Some) == running;
            assert(list[i].source == source);
        }
        assert(list[list.len() - 1].source == list.last().source);
    }
}

/// A source is captured, with a running session or without one.
pub open spec fn runs(list: Seq<Capture>, source: CaptureSource, running: bool) -> bool {
    exists|i: int|
        0 <= i < list.len() && (#[trigger] list[i]).source == source && (list[i].session is Some)
            == running
}

/// A request that waits for its timer is brought forward: the timer is removed, and
/// the frame asked for if there is a buffer.
pub proof fn waiting_requests_go_out(list: Seq<Capture>, i: int, token: u64)
    requires
        0 <= i < list.len(),
        list[i].session matches Some(s) && !s.in_flight && s.timer_token == Some(token),
    ensures
        hurry_steps(list).contains(Step::RemoveTimer(token)),
        list[i].session->0.has_buffers ==> hurry_steps(list).contains(
            Step::RequestFrame(list[i].source),
        ) && hurried(list)[i].session->0.in_flight,
        hurried(list)[i].session->0.timer_token is None,
    decreases list.len(),
{
    let front = list.drop_last();
    let steps = hurry_steps(list);
    let before = hurry_steps(front);
    if i < front.len() {
        assert(front[i] == list[i]);
        waiting_requests_go_out(front, i, token);
        let k = before.index_of(Step::RemoveTimer(token));
        assert(steps[k] == before[k]);
        if list[i].session->0.has_buffers {
            let j = before.index_of(Step::RequestFrame(list[i].source));
            assert(steps[j] == before[j]);
        }
    } else {
        assert(steps[before.len() as int] == Step::RemoveTimer(token));
        if list[i].session->0.has_buffers {
            assert(steps[before.len() as int + 1] == Step::RequestFrame(list[i].source));
        }
    }
}

/// Bringing up a window switches to the workspace that it is on, if it is on one,
/// and then activates the window itself where the compositor can do that.
pub proof fn windows_come_up_on_their_workspace(c: Compositor, at: usize)
    requires
        at < c.toplevels@.len(),
    ensures
        ({
            let steps = window_steps(c, at);
            let t = c.toplevels@[at as int];
            &&& t.workspaces@.len() > 0 && c.workspace_manager ==> steps.len() >= 2 && steps[0]
                == Step::ActivateWorkspace(t.workspaces@[0]) && steps[1] == Step::Commit
            &&& c.toplevel_manager && c.seat && t.cosmic_toplevel ==> steps.len() > 0
                && steps.last() == Step::ActivateToplevel(at)
            &&& !c.toplevel_manager || !c.seat || !t.cosmic_toplevel ==> !steps.contains(
                Step::ActivateToplevel(at),
            )
            &&& !c.workspace_manager ==> !steps.contains(Step::Commit)
        }),
{
}

/// Ids are related whichever is given first, and whenever one holds the other.
pub proof fn ids_are_related_both_ways(
    a: Seq<char>,
    b: Seq<char>,
    before: Seq<char>,
    after: Seq<char>,
)
    ensures
        related(a, b) == related(b, a),
        related(a, a),
        related(before + a + after, a),
{
    crate::text::lemma_inside(before, a, after);
}

/// The description of a workspace is the first one with its handle.
proof fn lemma_described(infos: Seq<WorkspaceInfo>, handle: u64)
    requires
        infos.len() <= usize::MAX,
    ensures
        match described(infos, handle) {
            Some(i) => {
                &&& i < infos.len()
                &&& infos[i as int].handle == handle
                &&& forall|k: int| 0 <= k < i ==> (#[trigger] infos[k]).handle != handle
            },
            None => forall|k: int|
                0 <= k < infos.len() ==> (#[trigger] infos[k]).handle != handle,
        },
    decreases infos.len(),
{
    if infos.len() > 0 {
        let front = infos.drop_last();
        lemma_described(front, handle);
        assert forall|k: int| 0 <= k < front.len() implies #[trigger] infos[k] == front[k] by {}
    }
}

/// Every described member of a group is listed with the group and its description.
proof fn lemma_group_listing(
    members: Seq<u64>,
    group: usize,
    infos: Seq<WorkspaceInfo>,
    m: int,
)
    requires
        0 <= m < members.len(),
        described(infos, members[m]) is Some,
    ensures
        group_listing(members, group, infos).contains((group, described(infos, members[m])->0)),
    decreases members.len(),
{
    let all = group_listing(members, group, infos);
    let rest = group_listing(members.drop_last(), group, infos);
    let entry = (group, described(infos, members[m])->0);
    if m < members.len() - 1 {
        lemma_group_listing(members.drop_last(), group, infos, m);
        let k = rest.index_of(entry);
        assert(all[k] == entry);
    } else {
        assert(all.last() == entry);
    }
}

proof fn lemma_group_entries(members: Seq<u64>, group: usize, infos: Seq<WorkspaceInfo>)
    requires
        infos.len() <= usize::MAX,
    ensures
        forall|k: int|
            0 <= k < group_listing(members, group, infos).len() ==> is_listed(
                #[trigger] group_listing(members, group, infos)[k],
                group,
                members,
                infos,
            ),
    decreases members.len(),
{
    if members.len() > 0 {
        let front = members.drop_last();
        lemma_group_entries(front, group, infos);
        lemma_described(infos, members.last());
        let rest = group_listing(front, group, infos);
        let all = group_listing(members, group, infos);
        assert(members[members.len() - 1] == members.last());
        assert forall|k: int| 0 <= k < all.len() implies is_listed(
            #[trigger] all[k],
            group,
            members,
            infos,
        ) by {
            if k < rest.len() {
                assert(all[k] == rest[k]);
                let h = infos[rest[k].1 as int].handle;
                let j = front.index_of(h);
                assert(members[j] == h);
            }
        }
    }
}

/// An entry of the listing names the group and the description of a member.
pub open spec fn is_listed(
    entry: (usize, usize),
    group: usize,
    members: Seq<u64>,
    infos: Seq<WorkspaceInfo>,
) -> bool {
    let (g, i) = entry;
    &&& g == group
    &&& i < infos.len()
    &&& members.contains(infos[i as int].handle)
}

/// Every workspace that belongs to a group and is described is listed with its
/// group and its description, and nothing else is listed; groups come in their
/// order.
pub proof fn described_workspaces_are_listed(
    groups: Seq<Group>,
    infos: Seq<WorkspaceInfo>,
    g: int,
    m: int,
    i: int,
)
    requires
        groups.len() <= usize::MAX,
        infos.len() <= usize::MAX,
    ensures
        0 <= g < groups.len() && 0 <= m < groups[g].workspaces@.len() && 0 <= i < infos.len()
            && infos[i].handle == groups[g].workspaces@[m] && (forall|k: int|
            0 <= k < i ==> (#[trigger] infos[k]).handle != infos[i].handle) ==> listing(
            groups,
            infos,
        ).contains((g as usize, i as usize)),
        forall|k: int|
            0 <= k < listing(groups, infos).len() ==> in_group(
                #[trigger] listing(groups, infos)[k],
                groups,
                infos,
            ),
        forall|j: int, k: int|
            0 <= j < k < listing(groups, infos).len() ==> group_of(
                #[trigger] listing(groups, infos)[j],
            ) <= group_of(#[trigger] listing(groups, infos)[k]),
    decreases groups.len(),
{
    if groups.len() > 0 {
        let front = groups.drop_last();
        let last = (groups.len() - 1) as usize;
        described_workspaces_are_listed(front, infos, g, m, i);
        let before = listing(front, infos);
        let added = group_listing(groups.last().workspaces@, last, infos);
        let all = listing(groups, infos);
        assert(all == before + added);
        lemma_group_entries(groups.last().workspaces@, last, infos);
        assert forall|k: int| 0 <= k < all.len() implies in_group(
            #[trigger] all[k],
            groups,
            infos,
        ) by {
            if k < before.len() {
                assert(all[k] == before[k]);
                assert(in_group(before[k], front, infos));
                let (gk, _) = before[k];
                assert(front[gk as int] == groups[gk as int]);
            } else {
                assert(all[k] == added[k - before.len()]);
            }
        }
        assert forall|j: int, k: int| 0 <= j < k < all.len() implies group_of(#[trigger] all[j])
            <= group_of(#[trigger] all[k]) by {
            if k < before.len() {
                assert(all[j] == before[j] && all[k] == before[k]);
            } else {
                assert(all[k] == added[k - before.len()]);
                if j < before.len() {
                    assert(all[j] == before[j]);
                    assert(in_group(before[j], front, infos));
                } else {
                    assert(all[j] == added[j - before.len()]);
                }
            }
        }
        if 0 <= g < groups.len() && 0 <= m < groups[g].workspaces@.len() && 0 <= i < infos.len()
            && infos[i].handle == groups[g].workspaces@[m] && (forall|k: int|
            0 <= k < i ==> (#[trigger] infos[k]).handle != infos[i].handle) {
            let entry = (g as usize, i as usize);
            lemma_described(infos, infos[i].handle);
            assert(described(infos, infos[i].handle) == Some(i as usize));
            if g < groups.len() - 1 {
                assert(front[g] == groups[g]);
                let k = before.index_of(entry);
                assert(all[k] == entry);
            } else {
                lemma_group_listing(groups[g].workspaces@, last, infos, m);
                let k = added.index_of(entry);
                assert(all[before.len() + k] == entry);
            }
        }
    }
}

/// The group of an entry of the listing.
pub open spec fn group_of(entry: (usize, usize)) -> usize {
    entry.0
}

/// An entry of the listing names a group and the description of one of its
/// members.
pub open spec fn in_group(
    entry: (usize, usize),
    groups: Seq<Group>,
    infos: Seq<WorkspaceInfo>,
) -> bool {
    let (g, i) = entry;
    &&& g < groups.len()
    &&& i < infos.len()
    &&& groups[g as int].workspaces@.contains(infos[i as int].handle)
}

/// Whether a workspace can be renamed is told by its first description.
pub proof fn first_descriptions_tell(list: Seq<WorkspaceInfo>, i: int, handle: u64)
    ensures
        0 <= i < list.len() && list[i].handle == handle && (forall|k: int|
            0 <= k < i ==> (#[trigger] list[k]).handle != handle) ==> has_extension(list, handle)
            == list[i].cosmic_handle,
        (forall|k: int| 0 <= k < list.len() ==> (#[trigger] list[k]).handle != handle)
            ==> !has_extension(list, handle),
    decreases list.len(),
{
    if list.len() > 0 && list[0].handle != handle {
        let rest = list.skip(1);
        first_descriptions_tell(rest, i - 1, handle);
        assert forall|k: int| 0 <= k < rest.len() implies #[trigger] rest[k] == list[k + 1] by {}
    }
}

/// A new state of one session leaves all others as they are, and is what is found for
/// its source.
pub proof fn sessions_are_apart(
    list: Seq<Capture>,
    i: int,
    j: int,
    session: Option<ScreencopySession>,
)
    requires
        0 <= i < list.len(),
        0 <= j < list.len(),
        forall|a: int, b: int|
            0 <= a < b < list.len() ==> (#[trigger] list[a]).source != (#[trigger] list[b]).source,
    ensures
        ({
            let next = with_session(list, list[i].source, session);
            &&& next.len() == list.len()
            &&& session_of(next, list[i].source) == session
            &&& session_of(list, list[i].source) == list[i].session
            &&& j != i ==> next[j] == list[j]
        }),
{
    let next = with_session(list, list[i].source, session);
    assert forall|a: int, b: int| 0 <= a < b < next.len() implies (#[trigger] next[a]).source != (
    #[trigger] next[b]).source by {
        assert(list[a].source != list[b].source);
    }
    assert(next[i].source == list[i].source);
    lemma_session_at(next, list[i].source, i);
    lemma_session_at(list, list[i].source, i);
    if j < i {
        assert(list[j].source != list[i].source);
    } else if j > i {
        assert(list[i].source != list[j].source);
    }
}

} // verus!
