//! Bringing a minimized window back, or closing it, one step at a time.

use crate::hypr::{
    close_lua, close_window, focus_lua, focus_window, move_lua, move_to_workspace,
};
use crate::number::{decimal, i32_to_string};
use vstd::prelude::*;
use vstd::string::*;

verus! {

/// What a click is to do with the window.
pub enum Goal {
    /// Bring it back on the workspace that is active.
    RestoreHere,
    /// Bring it back on the workspace with this id.
    RestoreTo(i32),
    /// Close it.
    Close,
}

/// How far a task has got: what it waits for.
pub enum Stage {
    /// The active workspace.
    Asking,
    /// The end of the window's move.
    Moving,
    /// The end of the last dispatch.
    Ending,
    /// Nothing: the task is over.
    Over,
}

/// What is to be done next.
pub enum Request {
    /// Ask Hyprland for the active workspace.
    ActiveWorkspace,
    /// Have Hyprland evaluate this Lua expression.
    Dispatch(String),
    /// Take the tray icon away and exit.
    Exit,
    /// Nothing.
    Nothing,
}

/// What is to be done next.
#[verifier::ext_equal]
pub enum RequestView {
    ActiveWorkspace,
    Dispatch(Seq<char>),
    Exit,
    Nothing,
}

impl View for Request {
    type V = RequestView;

    open spec fn view(&self) -> RequestView {
        match self {
            Request::ActiveWorkspace => RequestView::ActiveWorkspace,
            Request::Dispatch(lua) => RequestView::Dispatch(lua@),
            Request::Exit => RequestView::Exit,
            Request::Nothing => RequestView::Nothing,
        }
    }
}

/// How a request went.
pub enum Reply {
    /// Hyprland gave the id of the active workspace.
    Workspace(i32),
    /// The request was met.
    Done,
    /// The request failed.
    Failed,
}

/// The dispatch that moves the window to the workspace with this id and follows it there.
pub open spec fn move_request(id: i32, address: Seq<char>) -> RequestView {
    RequestView::Dispatch(move_lua(decimal(id as int), address, false))
}

/// How a task begins.
pub open spec fn started(goal: Goal, address: Seq<char>) -> (Stage, RequestView) {
    match goal {
        Goal::RestoreHere => (Stage::Asking, RequestView::ActiveWorkspace),
        Goal::RestoreTo(id) => (Stage::Moving, move_request(id, address)),
        Goal::Close => (Stage::Ending, RequestView::Dispatch(close_lua(address))),
    }
}

/// How a task goes on. A window that was moved is focused; a step that fails ends the task.
pub open spec fn stepped(stage: Stage, address: Seq<char>, reply: Reply) -> (Stage, RequestView) {
    match (stage, reply) {
        (Stage::Over, _) => (Stage::Over, RequestView::Nothing),
        (_, Reply::Failed) => (Stage::Over, RequestView::Exit),
        (Stage::Asking, Reply::Workspace(id)) => (Stage::Moving, move_request(id, address)),
        (Stage::Asking, Reply::Done) => (Stage::Over, RequestView::Exit),
        (Stage::Moving, _) => (Stage::Ending, RequestView::Dispatch(focus_lua(address))),
        (Stage::Ending, _) => (Stage::Over, RequestView::Exit),
    }
}

/// A click that is being acted upon.
pub struct Task {
    pub address: String,
    pub stage: Stage,
}

impl Task {
    /// Begins to act upon a click on the icon of the window with this address.
    pub fn start(goal: &Goal, address: &str) -> (r: (Task, Request))
        ensures
            r.0.address@ == address@,
            (r.0.stage, r.1@) == started(*goal, address@),
    {
        let (stage, request) = match goal {
            Goal::RestoreHere => (Stage::Asking, Request::ActiveWorkspace),
            Goal::RestoreTo(id) => (
                Stage::Moving,
                Request::Dispatch(move_to_workspace(i32_to_string(*id).as_str(), address, false)),
            ),
            Goal::Close => (Stage::Ending, Request::Dispatch(close_window(address))),
        };
        (Task { address: address.to_owned(), stage }, request)
    }

    /// Goes on after a request, as it went.
    pub fn step(self, reply: Reply) -> (r: (Task, Request))
        ensures
            r.0.address == self.address,
            (r.0.stage, r.1@) == stepped(self.stage, self.address@, reply),
    {
        let address = self.address;
        let (stage, request) = match (self.stage, reply) {
            (Stage::Over, _) => (Stage::Over, Request::Nothing),
            (_, Reply::Failed) => (Stage::Over, Request::Exit),
            (Stage::Asking, Reply::Workspace(id)) => (
                Stage::Moving,
                Request::Dispatch(
                    move_to_workspace(i32_to_string(id).as_str(), address.as_str(), false),
                ),
            ),
            (Stage::Asking, Reply::Done) => (Stage::Over, Request::Exit),
            (Stage::Moving, _) => (
                Stage::Ending,
                Request::Dispatch(focus_window(address.as_str())),
            ),
            (Stage::Ending, _) => (Stage::Over, Request::Exit),
        };
        (Task { address, stage }, request)
    }
}

/// The requests of a task from a stage on, one for each reply.
pub open spec fn requests_from(stage: Stage, address: Seq<char>, replies: Seq<Reply>) -> Seq<
    RequestView,
>
    decreases replies.len(),
{
    if replies.len() == 0 {
        Seq::empty()
    } else {
        let (next, request) = stepped(stage, address, replies[0]);
        seq![request] + requests_from(next, address, replies.drop_first())
    }
}

/// All requests of a task: the first, then one for each reply.
pub open spec fn requests(goal: Goal, address: Seq<char>, replies: Seq<Reply>) -> Seq<
    RequestView,
> {
    let (stage, request) = started(goal, address);
    seq![request] + requests_from(stage, address, replies)
}

/// How often a program is told to exit.
pub open spec fn exits(requests: Seq<RequestView>) -> nat
    decreases requests.len(),
{
    if requests.len() == 0 {
        0
    } else {
        (if requests[0] is Exit {
            1nat
        } else {
            0nat
        }) + exits(requests.drop_first())
    }
}

/// How many replies a task in this stage waits for at most.
pub open spec fn steps_left(stage: Stage) -> nat {
    match stage {
        Stage::Asking => 3,
        Stage::Moving => 2,
        Stage::Ending => 1,
        Stage::Over => 0,
    }
}

proof fn lemma_exits_from(stage: Stage, address: Seq<char>, replies: Seq<Reply>)
    ensures
        exits(requests_from(stage, address, replies)) <= 1,
        stage is Over ==> exits(requests_from(stage, address, replies)) == 0,
        !(stage is Over) && replies.len() >= steps_left(stage) ==> exits(
            requests_from(stage, address, replies),
        ) == 1,
    decreases replies.len(),
{
    if replies.len() > 0 {
        let (next, request) = stepped(stage, address, replies[0]);
        let rest = requests_from(next, address, replies.drop_first());
        lemma_exits_from(next, address, replies.drop_first());
        assert((seq![request] + rest).drop_first() == rest);
    }
}

/// A click always ends: whatever fails on the way, the program is told to exit after at most
/// three replies, and never twice.
pub proof fn law_click_always_exits(goal: Goal, address: Seq<char>, replies: Seq<Reply>)
    ensures
        exits(requests(goal, address, replies)) <= 1,
        replies.len() >= 3 ==> exits(requests(goal, address, replies)) == 1,
{
    let (stage, request) = started(goal, address);
    let rest = requests_from(stage, address, replies);
    lemma_exits_from(stage, address, replies);
    assert((seq![request] + rest).drop_first() == rest);
}

/// Where all goes well, a window is moved to the active workspace, focused, and the program
/// exits.
pub proof fn law_restore_here(address: Seq<char>, id: i32)
    ensures
        requests(
            Goal::RestoreHere,
            address,
            seq![Reply::Workspace(id), Reply::Done, Reply::Done],
        ) == seq![
            RequestView::ActiveWorkspace,
            move_request(id, address),
            RequestView::Dispatch(focus_lua(address)),
            RequestView::Exit,
        ],
{
    reveal_with_fuel(requests_from, 4);
    let replies = seq![Reply::Workspace(id), Reply::Done, Reply::Done];
    assert(replies.drop_first() == seq![Reply::Done, Reply::Done]);
    assert(seq![Reply::Done, Reply::Done].drop_first() == seq![Reply::Done]);
}

/// A window is focused only after it was moved: in every run the request before the one that
/// focuses it is the one that moves it.
pub proof fn law_focus_follows_move(
    goal: Goal,
    address: Seq<char>,
    replies: Seq<Reply>,
    i: int,
)
    requires
        0 <= i < requests(goal, address, replies).len(),
        requests(goal, address, replies)[i] == RequestView::Dispatch(focus_lua(address)),
    ensures
        i > 0,
        exists|id: i32|
            requests(goal, address, replies)[i - 1] == #[trigger] move_request(id, address),
        !(replies[i - 1] is Failed),
{
    let (stage, request) = started(goal, address);
    lemma_not_focus(address);
    if i > 0 {
        match goal {
            Goal::RestoreTo(id) => {
                assert(request == move_request(id, address));
            },
            _ => {},
        }
        lemma_focus_from(stage, request, address, replies, i - 1);
        let all = requests(goal, address, replies);
        let rest = requests_from(stage, address, replies);
        assert(all[i] == rest[i - 1]);
        if i > 1 {
            assert(all[i - 1] == rest[i - 2]);
        }
    } else {
        match goal {
            Goal::RestoreTo(id) => {
                lemma_move_is_not_focus(id, address);
            },
            _ => {},
        }
    }
}

proof fn lemma_focus_from(
    stage: Stage,
    last: RequestView,
    address: Seq<char>,
    replies: Seq<Reply>,
    i: int,
)
    requires
        0 <= i < requests_from(stage, address, replies).len(),
        requests_from(stage, address, replies)[i] == RequestView::Dispatch(focus_lua(address)),
        stage is Moving ==> exists|id: i32| last == #[trigger] move_request(id, address),
    ensures
        i == 0 ==> stage is Moving,
        i > 0 ==> exists|id: i32|
            requests_from(stage, address, replies)[i - 1] == #[trigger] move_request(id, address),
        i < replies.len() && !(replies[i] is Failed),
    decreases replies.len(),
{
    let (next, request) = stepped(stage, address, replies[0]);
    let rest = requests_from(next, address, replies.drop_first());
    lemma_not_focus(address);
    match (stage, replies[0]) {
        (Stage::Asking, Reply::Workspace(id)) => {
            lemma_move_is_not_focus(id, address);
            assert(request == move_request(id, address));
        },
        _ => {},
    }
    if i > 0 {
        assert(requests_from(stage, address, replies)[i] == rest[i - 1]);
        lemma_focus_from(next, request, address, replies.drop_first(), i - 1);
        if i > 1 {
            assert(requests_from(stage, address, replies)[i - 1] == rest[i - 2]);
        }
    }
}

proof fn lemma_not_focus(address: Seq<char>)
    ensures
        close_lua(address) != focus_lua(address),
{
    reveal_strlit("hl.dispatch(hl.dsp.focus({window = 'address:");
    reveal_strlit("hl.dispatch(hl.dsp.window.close({window = 'address:");
    assert(close_lua(address)[19] == 'w');
    assert(focus_lua(address)[19] == 'f');
}

proof fn lemma_move_is_not_focus(id: i32, address: Seq<char>)
    ensures
        move_request(id, address) != RequestView::Dispatch(focus_lua(address)),
{
    reveal_strlit("hl.dispatch(hl.dsp.focus({window = 'address:");
    reveal_strlit("hl.dispatch(hl.dsp.window.move({workspace = '");
    assert(move_lua(decimal(id as int), address, false)[19] == 'w');
    assert(focus_lua(address)[19] == 'f');
}

/// To close a window is to dispatch that, and to exit when the dispatch is over, whether it
/// succeeded or not.
pub proof fn law_close(address: Seq<char>, reply: Reply)
    ensures
        ({
            let (s0, q0) = started(Goal::Close, address);
            let (s1, q1) = stepped(s0, address, reply);
            &&& q0 == RequestView::Dispatch(close_lua(address))
            &&& q1 is Exit
            &&& s1 is Over
        }),
{
}

/// To restore a window on a workspace is to move it there and follow it, to focus it where the
/// move did not fail, and to exit; where the move fails, to exit at once.
pub proof fn law_restore_to(address: Seq<char>, id: i32, moved: Reply, focused: Reply)
    ensures
        ({
            let (s0, q0) = started(Goal::RestoreTo(id), address);
            let (s1, q1) = stepped(s0, address, moved);
            let (s2, q2) = stepped(s1, address, focused);
            &&& q0 == RequestView::Dispatch(move_lua(decimal(id as int), address, false))
            &&& moved is Failed ==> q1 is Exit && s1 is Over
            &&& !(moved is Failed) ==> q1 == RequestView::Dispatch(focus_lua(address)) && q2 is Exit
                && s2 is Over
        }),
{
}

/// To restore a window where the user is, is to ask for the active workspace, and to go on as
/// if that workspace had been given; where it is not to be had, to exit at once.
pub proof fn law_restore_here_is_restore_to(address: Seq<char>, id: i32)
    ensures
        ({
            let (s0, q0) = started(Goal::RestoreHere, address);
            &&& q0 is ActiveWorkspace
            &&& stepped(s0, address, Reply::Workspace(id)) == started(Goal::RestoreTo(id), address)
            &&& stepped(s0, address, Reply::Failed).1 is Exit
            &&& stepped(s0, address, Reply::Failed).0 is Over
            &&& stepped(s0, address, Reply::Done).1 is Exit
            &&& stepped(s0, address, Reply::Done).0 is Over
        }),
{
}

/// Once a task is over nothing is to be done, whatever comes.
pub proof fn law_over_is_over(address: Seq<char>, reply: Reply)
    ensures
        stepped(Stage::Over, address, reply).0 is Over,
        stepped(Stage::Over, address, reply).1 is Nothing,
{
}

/// A dispatch is read for the very expression that it hands over, and every other request for
/// what it is.
pub proof fn law_request_views(lua: String)
    ensures
        Request::Dispatch(lua)@ == RequestView::Dispatch(lua@),
        Request::ActiveWorkspace@ == RequestView::ActiveWorkspace,
        Request::Exit@ == RequestView::Exit,
        Request::Nothing@ == RequestView::Nothing,
{
}

} // verus!
