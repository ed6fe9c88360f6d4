//! The life of a minimized window, from the moment it is parked to the moment it is gone
//! from the tray.

use crate::desktop::{entry_views, DesktopEntry};
use crate::hypr::{
    find_window, law_first_window, lemma_window_index, move_lua, move_to_workspace, window_index,
    WindowInfo,
};
use crate::number::{decimal, i32_to_string};
use crate::resolve::{icon_or_class, process_words, resolve_icon, window_match};
use crate::text::{lowercase, same};
use vstd::prelude::*;
use vstd::string::*;

verus! {

/// The class by which a window is looked up: its title where it has no class.
pub open spec fn effective_class(window: WindowInfo) -> Seq<char> {
    if window.class@.len() == 0 {
        window.title@
    } else {
        window.class@
    }
}

/// The window as it is minimized: with a class, as far as it has one or a title, and with the
/// icon that is found for it. Nothing else changes.
pub fn prepare_window(
    window: &WindowInfo,
    entries: &Vec<DesktopEntry>,
    cmdline: &Option<Vec<u8>>,
) -> (r: WindowInfo)
    ensures
        r.address == window.address,
        r.workspace == window.workspace,
        r.title == window.title,
        r.pid == window.pid,
        r.class@ == effective_class(*window),
        r.icon@ == icon_or_class(
            window_match(
                entry_views(entries@),
                lowercase(effective_class(*window)),
                process_words(window.pid, *cmdline),
            ),
            effective_class(*window),
        ),
{
    let class = if window.class.as_str().is_empty() {
        window.title.clone()
    } else {
        window.class.clone()
    };
    let icon = resolve_icon(entries, class.as_str(), window.pid, cmdline);
    WindowInfo {
        address: window.address.clone(),
        workspace: window.workspace,
        title: window.title.clone(),
        class,
        pid: window.pid,
        icon,
    }
}

/// What a session waits for.
pub enum Stage {
    /// The window's move to the hidden workspace.
    Parking,
    /// The service on the bus.
    Serving,
    /// The registration with the tray.
    Registering,
    /// A click, the end of the window, or an interruption.
    Waiting,
    /// The window's move back after a registration that failed.
    GivingUp,
    /// The window's move back after an interruption.
    Restoring,
    /// Nothing: the session is over.
    Over,
}

/// Why a session failed.
pub enum Failure {
    /// The window could not be parked.
    Park,
    /// The service could not be set up.
    Serve,
    /// The tray did not take the icon.
    Register,
}

/// What is to be done next.
pub enum Request {
    /// Have Hyprland evaluate this Lua expression.
    Dispatch(String),
    /// Serve the tray icon and its menu on the bus.
    Serve,
    /// Register the icon with the tray.
    Register,
    /// Wait for what happens.
    Wait,
    /// Exit.
    Finish,
    /// Exit with an error.
    Fail(Failure),
    /// Nothing.
    Nothing,
}

/// What is to be done next.
#[verifier::ext_equal]
pub enum RequestView {
    Dispatch(Seq<char>),
    Serve,
    Register,
    Wait,
    Finish,
    Fail(Failure),
    Nothing,
}

impl View for Request {
    type V = RequestView;

    open spec fn view(&self) -> RequestView {
        match self {
            Request::Dispatch(lua) => RequestView::Dispatch(lua@),
            Request::Serve => RequestView::Serve,
            Request::Register => RequestView::Register,
            Request::Wait => RequestView::Wait,
            Request::Finish => RequestView::Finish,
            Request::Fail(f) => RequestView::Fail(*f),
            Request::Nothing => RequestView::Nothing,
        }
    }
}

/// What happened.
pub enum Event {
    /// The request was met.
    Done,
    /// The request failed.
    Failed,
    /// The user interrupted the program.
    Interrupted,
    /// The icon has had its use: it was clicked, or the window is no longer known to be
    /// minimized.
    Dismissed,
}

/// The dispatch that parks a window on the hidden workspace, without following it.
pub open spec fn park_request(address: Seq<char>) -> RequestView {
    RequestView::Dispatch(move_lua("special:minimized"@, address, true))
}

/// The dispatch that moves a window back to the workspace it was on, and follows it.
pub open spec fn unpark_request(workspace: i32, address: Seq<char>) -> RequestView {
    RequestView::Dispatch(move_lua(decimal(workspace as int), address, false))
}

/// How a session goes on.
pub open spec fn advanced(stage: Stage, workspace: i32, address: Seq<char>, event: Event) -> (
    Stage,
    RequestView,
) {
    match (stage, event) {
        (Stage::Parking, Event::Done) => (Stage::Serving, RequestView::Serve),
        (Stage::Parking, _) => (Stage::Over, RequestView::Fail(Failure::Park)),
        (Stage::Serving, Event::Done) => (Stage::Registering, RequestView::Register),
        (Stage::Serving, _) => (Stage::Over, RequestView::Fail(Failure::Serve)),
        (Stage::Registering, Event::Done) => (Stage::Waiting, RequestView::Wait),
        (Stage::Registering, _) => (Stage::GivingUp, unpark_request(workspace, address)),
        (Stage::Waiting, Event::Interrupted) => (
            Stage::Restoring,
            unpark_request(workspace, address),
        ),
        (Stage::Waiting, Event::Dismissed) => (Stage::Over, RequestView::Finish),
        (Stage::Waiting, _) => (Stage::Waiting, RequestView::Wait),
        (Stage::GivingUp, _) => (Stage::Over, RequestView::Fail(Failure::Register)),
        (Stage::Restoring, _) => (Stage::Over, RequestView::Finish),
        (Stage::Over, _) => (Stage::Over, RequestView::Nothing),
    }
}

/// A window that is being minimized.
pub struct Session {
    pub address: String,
    pub workspace: i32,
    pub stage: Stage,
}

impl Session {
    /// Begins to minimize a window: it is parked on the hidden workspace.
    pub fn start(window: &WindowInfo) -> (r: (Session, Request))
        ensures
            r.0.address@ == window.address@,
            r.0.workspace == window.workspace.id,
            r.0.stage is Parking,
            r.1@ == park_request(window.address@),
    {
        let lua = move_to_workspace("special:minimized", window.address.as_str(), true);
        (
            Session {
                address: window.address.clone(),
                workspace: window.workspace.id,
                stage: Stage::Parking,
            },
            Request::Dispatch(lua),
        )
    }

    /// Goes on after what happened. Whether the window's move back succeeded does not matter.
    pub fn advance(self, event: Event) -> (r: (Session, Request))
        ensures
            r.0.address == self.address,
            r.0.workspace == self.workspace,
            (r.0.stage, r.1@) == advanced(self.stage, self.workspace, self.address@, event),
    {
        let address = self.address;
        let workspace: i32 = self.workspace;
        let (stage, request) = match (self.stage, event) {
            (Stage::Parking, Event::Done) => (Stage::Serving, Request::Serve),
            (Stage::Parking, _) => (Stage::Over, Request::Fail(Failure::Park)),
            (Stage::Serving, Event::Done) => (Stage::Registering, Request::Register),
            (Stage::Serving, _) => (Stage::Over, Request::Fail(Failure::Serve)),
            (Stage::Registering, Event::Done) => (Stage::Waiting, Request::Wait),
            (Stage::Registering, _) => (
                Stage::GivingUp,
                Request::Dispatch(
                    move_to_workspace(i32_to_string(workspace).as_str(), address.as_str(), false),
                ),
            ),
            (Stage::Waiting, Event::Interrupted) => (
                Stage::Restoring,
                Request::Dispatch(
                    move_to_workspace(i32_to_string(workspace).as_str(), address.as_str(), false),
                ),
            ),
            (Stage::Waiting, Event::Dismissed) => (Stage::Over, Request::Finish),
            (Stage::Waiting, _) => (Stage::Waiting, Request::Wait),
            (Stage::GivingUp, _) => (Stage::Over, Request::Fail(Failure::Register)),
            (Stage::Restoring, _) => (Stage::Over, Request::Finish),
            (Stage::Over, _) => (Stage::Over, Request::Nothing),
        };
        (Session { address, workspace, stage }, request)
    }
}

/// Where a minimized window is.
pub enum WindowState {
    /// Where it was parked.
    Minimized,
    /// On an ordinary workspace.
    Restored,
    /// Nowhere: it was closed.
    Closed,
    /// It could not be found out.
    Unknown,
}

/// Where the window with this address is, by the list of all windows. Ordinary workspaces
/// have positive ids.
pub open spec fn window_state(clients: Option<Seq<WindowInfo>>, address: Seq<char>) -> WindowState {
    match clients {
        Some(all) => {
            let i = window_index(all, address);
            if i >= all.len() {
                WindowState::Closed
            } else if all[i].workspace.id > 0 {
                WindowState::Restored
            } else {
                WindowState::Minimized
            }
        },
        None => WindowState::Unknown,
    }
}

/// The list of all windows, where it could be had.
pub open spec fn client_list(clients: Option<Vec<WindowInfo>>) -> Option<Seq<WindowInfo>> {
    match clients {
        Some(all) => Some(all@),
        None => None,
    }
}

/// Where the window with this address is, by the list of all windows, which is `None` where
/// it could not be had.
pub fn check_window(clients: &Option<Vec<WindowInfo>>, address: &str) -> (r: WindowState)
    ensures
        r == window_state(client_list(*clients), address@),
{
    match clients {
        Some(all) => match find_window(all, address) {
            Some(i) => if all[i].workspace.id > 0 {
                WindowState::Restored
            } else {
                WindowState::Minimized
            },
            None => WindowState::Closed,
        },
        None => WindowState::Unknown,
    }
}

/// Whether there is no more need for the tray icon: the window is no longer minimized, or
/// it cannot be found out.
pub fn is_dismissed(state: &WindowState) -> (r: bool)
    ensures
        r == !(*state is Minimized),
{
    match state {
        WindowState::Minimized => false,
        _ => true,
    }
}

/// The icon is registered again when a tray comes up: when its bus name gets an owner.
pub open spec fn tray_came_up(name: Seq<char>, has_new_owner: bool) -> bool {
    name == "org.kde.StatusNotifierWatcher"@ && has_new_owner
}

/// Whether the icon is to be registered again, as a bus name changed hands.
pub fn should_register_again(name: &str, has_new_owner: bool) -> (r: bool)
    ensures
        r == tray_came_up(name@, has_new_owner),
{
    has_new_owner && same(name, "org.kde.StatusNotifierWatcher")
}

/// The requests of a session from a stage on, one for each event.
pub open spec fn requests_from(
    stage: Stage,
    workspace: i32,
    address: Seq<char>,
    events: Seq<Event>,
) -> Seq<RequestView>
    decreases events.len(),
{
    if events.len() == 0 {
        Seq::empty()
    } else {
        let (next, request) = advanced(stage, workspace, address, events[0]);
        seq![request] + requests_from(next, workspace, address, events.drop_first())
    }
}

/// A window that the tray does not take is given back: when the registration fails, the
/// window is moved back to its workspace, and only then the session fails, whether the move
/// succeeded or not.
pub proof fn law_refused_window_is_given_back(
    workspace: i32,
    address: Seq<char>,
    outcome: Event,
)
    ensures
        requests_from(
            Stage::Parking,
            workspace,
            address,
            seq![Event::Done, Event::Done, Event::Failed, outcome],
        ) == seq![
            RequestView::Serve,
            RequestView::Register,
            unpark_request(workspace, address),
            RequestView::Fail(Failure::Register),
        ],
{
    reveal_with_fuel(requests_from, 5);
    let events = seq![Event::Done, Event::Done, Event::Failed, outcome];
    assert(events.drop_first() == seq![Event::Done, Event::Failed, outcome]);
    assert(events.drop_first().drop_first() == seq![Event::Failed, outcome]);
    assert(events.drop_first().drop_first().drop_first() == seq![outcome]);
}

/// A window whose session is interrupted is given back: it is moved back to its workspace
/// before the session ends.
pub proof fn law_interrupted_window_is_given_back(
    workspace: i32,
    address: Seq<char>,
    outcome: Event,
)
    ensures
        requests_from(
            Stage::Waiting,
            workspace,
            address,
            seq![Event::Interrupted, outcome],
        ) == seq![unpark_request(workspace, address), RequestView::Finish],
{
    reveal_with_fuel(requests_from, 3);
    let events = seq![Event::Interrupted, outcome];
    assert(events.drop_first() == seq![outcome]);
}

/// The end of a session whose window was parked and whose icon was served.
pub open spec fn ends_parked_window(request: RequestView) -> bool {
    request is Finish || request == RequestView::Fail(Failure::Register)
}

proof fn lemma_given_back(
    stage: Stage,
    last: RequestView,
    workspace: i32,
    address: Seq<char>,
    events: Seq<Event>,
    i: int,
)
    requires
        0 <= i < events.len(),
        stage is GivingUp || stage is Restoring ==> last == unpark_request(workspace, address),
        ends_parked_window(requests_from(stage, workspace, address, events)[i]),
    ensures
        i == 0 ==> events[0] is Dismissed || last == unpark_request(workspace, address),
        i > 0 ==> events[i] is Dismissed || requests_from(stage, workspace, address, events)[i - 1]
            == unpark_request(workspace, address),
        i == 0 ==> !(stage is Parking),
    decreases events.len(),
{
    let (next, request) = advanced(stage, workspace, address, events[0]);
    let rest = events.drop_first();
    let all = requests_from(stage, workspace, address, events);
    let tail = requests_from(next, workspace, address, rest);
    lemma_requests_len(next, workspace, address, rest);
    if i > 0 {
        assert(all[i] == tail[i - 1]);
        lemma_given_back(next, request, workspace, address, rest, i - 1);
        if i > 1 {
            assert(all[i - 1] == tail[i - 2]);
        }
    }
}

/// A session whose icon was served ends when the icon has had its use, or right after the
/// dispatch that moves the window back to its workspace, and in no other way.
pub proof fn law_served_session_ends_by_use_or_return(
    workspace: i32,
    address: Seq<char>,
    events: Seq<Event>,
    i: int,
)
    requires
        0 <= i < events.len(),
        ends_parked_window(requests_from(Stage::Parking, workspace, address, events)[i]),
    ensures
        i > 0,
        events[i] is Dismissed || requests_from(Stage::Parking, workspace, address, events)[i - 1]
            == unpark_request(workspace, address),
{
    lemma_given_back(Stage::Parking, park_request(address), workspace, address, events, i);
}

/// The end of a session.
pub open spec fn is_end(request: RequestView) -> bool {
    request is Finish || request is Fail
}

/// A session ends at most once: after the request that ends it there is nothing to do.
pub proof fn law_session_ends_once(
    stage: Stage,
    workspace: i32,
    address: Seq<char>,
    events: Seq<Event>,
    i: int,
    j: int,
)
    requires
        0 <= i < j < events.len(),
        is_end(requests_from(stage, workspace, address, events)[i]),
    ensures
        requests_from(stage, workspace, address, events)[j] is Nothing,
    decreases events.len(),
{
    let (next, request) = advanced(stage, workspace, address, events[0]);
    let rest = events.drop_first();
    lemma_requests_len(next, workspace, address, rest);
    let tail = requests_from(next, workspace, address, rest);
    assert(requests_from(stage, workspace, address, events)[j] == tail[j - 1]);
    if i == 0 {
        lemma_over(workspace, address, rest, j - 1);
    } else {
        assert(requests_from(stage, workspace, address, events)[i] == tail[i - 1]);
        law_session_ends_once(next, workspace, address, rest, i - 1, j - 1);
    }
}

proof fn lemma_requests_len(stage: Stage, workspace: i32, address: Seq<char>, events: Seq<Event>)
    ensures
        requests_from(stage, workspace, address, events).len() == events.len(),
    decreases events.len(),
{
    if events.len() > 0 {
        let (next, request) = advanced(stage, workspace, address, events[0]);
        lemma_requests_len(next, workspace, address, events.drop_first());
    }
}

proof fn lemma_over(workspace: i32, address: Seq<char>, events: Seq<Event>, k: int)
    requires
        0 <= k < events.len(),
    ensures
        requests_from(Stage::Over, workspace, address, events)[k] is Nothing,
    decreases events.len(),
{
    let rest = events.drop_first();
    lemma_requests_len(Stage::Over, workspace, address, rest);
    if k > 0 {
        lemma_over(workspace, address, rest, k - 1);
        assert(requests_from(Stage::Over, workspace, address, events)[k] == requests_from(
            Stage::Over,
            workspace,
            address,
            rest,
        )[k - 1]);
    }
}

/// While the window is listed on a workspace that is not an ordinary one, it is minimized; a
/// window that is not listed is closed.
pub proof fn law_window_state(all: Seq<WindowInfo>, address: Seq<char>)
    ensures
        window_state(Some(all), address) is Closed <==> !exists|i: int|
            0 <= i < all.len() && (#[trigger] all[i]).address@ == address,
        window_state(Some(all), address) is Minimized ==> exists|i: int|
            0 <= i < all.len() && (#[trigger] all[i]).address@ == address && all[i].workspace.id
                <= 0,
        window_state(Some(all), address) is Restored ==> exists|i: int|
            0 <= i < all.len() && (#[trigger] all[i]).address@ == address && all[i].workspace.id
                > 0,
{
    lemma_window_index(all, address);
}

/// A window is looked up by its class where it has one, and by its title only where it has none.
pub proof fn law_effective_class(window: WindowInfo)
    ensures
        window.class@.len() > 0 ==> effective_class(window) == window.class@,
        window.class@.len() == 0 ==> effective_class(window) == window.title@,
{
}

/// A window is parked on the hidden workspace without being followed, and given back to the
/// workspace it was on, with the user following it.
pub proof fn law_parking_and_return(workspace: i32, address: Seq<char>)
    ensures
        park_request(address) == RequestView::Dispatch(
            move_lua("special:minimized"@, address, true),
        ),
        unpark_request(workspace, address) == RequestView::Dispatch(
            move_lua(decimal(workspace as int), address, false),
        ),
{
}

/// Where all goes well a window is parked, then served, then registered, and then waited for.
/// A step that fails on the way ends the session with the failure of that step, after the
/// window was given back where the registration is what failed.
pub proof fn law_steps_of_a_session(
    workspace: i32,
    address: Seq<char>,
    failure: Event,
    outcome: Event,
)
    requires
        !(failure is Done),
    ensures
        ({
            let (s1, q1) = advanced(Stage::Parking, workspace, address, Event::Done);
            let (s2, q2) = advanced(s1, workspace, address, Event::Done);
            let (s3, q3) = advanced(s2, workspace, address, Event::Done);
            let (f2, g2) = advanced(s2, workspace, address, failure);
            &&& q1 is Serve && q2 is Register && q3 is Wait
            &&& advanced(Stage::Parking, workspace, address, failure) == (
                Stage::Over,
                RequestView::Fail(Failure::Park),
            )
            &&& advanced(s1, workspace, address, failure) == (
                Stage::Over,
                RequestView::Fail(Failure::Serve),
            )
            &&& g2 == RequestView::Dispatch(move_lua(decimal(workspace as int), address, false))
            &&& advanced(f2, workspace, address, outcome) == (
                Stage::Over,
                RequestView::Fail(Failure::Register),
            )
        }),
{
}

/// A session that waits goes on waiting until the icon has had its use, which ends it, or the
/// user interrupts it, which ends it after the window was given back, whether that succeeded
/// or not. Once it is over nothing is to be done.
pub proof fn law_waiting(workspace: i32, address: Seq<char>, outcome: Event)
    ensures
        ({
            let (s1, _) = advanced(Stage::Parking, workspace, address, Event::Done);
            let (s2, _) = advanced(s1, workspace, address, Event::Done);
            let (s3, _) = advanced(s2, workspace, address, Event::Done);
            let (r, q) = advanced(s3, workspace, address, Event::Interrupted);
            &&& advanced(s3, workspace, address, Event::Done) == (s3, RequestView::Wait)
            &&& advanced(s3, workspace, address, Event::Failed) == (s3, RequestView::Wait)
            &&& advanced(s3, workspace, address, Event::Dismissed) == (
                Stage::Over,
                RequestView::Finish,
            )
            &&& q == RequestView::Dispatch(move_lua(decimal(workspace as int), address, false))
            &&& advanced(r, workspace, address, outcome) == (Stage::Over, RequestView::Finish)
            &&& advanced(Stage::Over, workspace, address, outcome) == (
                Stage::Over,
                RequestView::Nothing,
            )
        }),
{
}

/// Where the list of windows is to be had, it is known where the window is: the first window
/// with the address decides, by the id of its workspace alone, which is positive where the
/// window was restored and not where it is minimized. A window that is not in the list is
/// closed. Only where the list is not to be had is it unknown.
pub proof fn law_list_tells_the_state(
    before: Seq<WindowInfo>,
    window: WindowInfo,
    after: Seq<WindowInfo>,
    address: Seq<char>,
)
    requires
        window.address@ == address,
        forall|j: int| 0 <= j < before.len() ==> (#[trigger] before[j]).address@ != address,
    ensures
        window.workspace.id > 0 ==> window_state(
            Some(before + seq![window] + after),
            address,
        ) is Restored,
        window.workspace.id <= 0 ==> window_state(
            Some(before + seq![window] + after),
            address,
        ) is Minimized,
        window_state(Some(before), address) is Closed,
        window_state(None, address) is Unknown,
{
    law_first_window(before, window, after, address);
    assert((before + seq![window] + after)[before.len() as int] == window);
}

/// The list of windows is taken as it is.
pub proof fn law_client_list(all: Vec<WindowInfo>)
    ensures
        client_list(Some(all)) == Some(all@),
        client_list(None) is None,
{
}

/// The icon is registered again when the name of the tray's registry gets an owner, and on no
/// other change: not when it loses one, nor when another name gets one.
pub proof fn law_registered_again(name: Seq<char>)
    ensures
        tray_came_up("org.kde.StatusNotifierWatcher"@, true),
        !tray_came_up(name, false),
        name != "org.kde.StatusNotifierWatcher"@ ==> !tray_came_up(name, true),
{
}

/// A dispatch is read for the very expression that it hands over, and every other request for
/// what it is.
pub proof fn law_request_views(lua: String, failure: Failure)
    ensures
        Request::Dispatch(lua)@ == RequestView::Dispatch(lua@),
        Request::Serve@ == RequestView::Serve,
        Request::Register@ == RequestView::Register,
        Request::Wait@ == RequestView::Wait,
        Request::Finish@ == RequestView::Finish,
        Request::Fail(failure)@ == RequestView::Fail(failure),
        Request::Nothing@ == RequestView::Nothing,
{
}

} // verus!
