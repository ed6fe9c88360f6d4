//! Windows and workspaces of Hyprland, and the Lua expressions that move, focus and close
//! a window.

use crate::text::{concat2, same};
use vstd::prelude::*;
use vstd::string::*;

verus! {

/// A workspace, by its id.
#[derive(Clone, Copy, Debug)]
pub struct Workspace {
    pub id: i32,
}

/// A window, with the icon that was found for it.
#[derive(Debug)]
pub struct WindowInfo {
    pub address: String,
    pub workspace: Workspace,
    pub title: String,
    pub class: String,
    pub pid: i32,
    pub icon: String,
}

impl Clone for WindowInfo {
    fn clone(&self) -> (r: Self)
        ensures
            r == *self,
    {
        WindowInfo {
            address: self.address.clone(),
            workspace: self.workspace,
            title: self.title.clone(),
            class: self.class.clone(),
            pid: self.pid,
            icon: self.icon.clone(),
        }
    }
}

/// The Lua expression that moves a window to a workspace.
pub open spec fn move_lua(workspace: Seq<char>, address: Seq<char>, silent: bool) -> Seq<char> {
    "hl.dispatch(hl.dsp.window.move({workspace = '"@ + workspace + "', follow = "@ + (if silent {
        "false"@
    } else {
        "true"@
    }) + ", window = 'address:"@ + address + "'}))"@
}

/// The Lua expression that focuses a window.
pub open spec fn focus_lua(address: Seq<char>) -> Seq<char> {
    "hl.dispatch(hl.dsp.focus({window = 'address:"@ + address + "'}))"@
}

/// The Lua expression that closes a window.
pub open spec fn close_lua(address: Seq<char>) -> Seq<char> {
    "hl.dispatch(hl.dsp.window.close({window = 'address:"@ + address + "'}))"@
}

/// The Lua expression that moves a window, by address, to a workspace. A silent move keeps
/// the current workspace active; any other switches to the target workspace.
pub fn move_to_workspace(workspace: &str, address: &str, silent: bool) -> (r: String)
    ensures
        r@ == move_lua(workspace@, address@, silent),
{
    let follow = if silent {
        "false"
    } else {
        "true"
    };
    concat2("hl.dispatch(hl.dsp.window.move({workspace = '", workspace).concat("', follow = ").concat(
        follow,
    ).concat(", window = 'address:").concat(address).concat("'}))")
}

/// The Lua expression that focuses a window, by address.
pub fn focus_window(address: &str) -> (r: String)
    ensures
        r@ == focus_lua(address@),
{
    concat2("hl.dispatch(hl.dsp.focus({window = 'address:", address).concat("'}))")
}

/// The Lua expression that closes a window, by address.
pub fn close_window(address: &str) -> (r: String)
    ensures
        r@ == close_lua(address@),
{
    concat2("hl.dispatch(hl.dsp.window.close({window = 'address:", address).concat("'}))")
}

/// The index of the first window with this address, or the number of windows where none
/// has it.
pub open spec fn window_index(clients: Seq<WindowInfo>, address: Seq<char>) -> int
    decreases clients.len(),
{
    if clients.len() == 0 || clients[0].address@ == address {
        0
    } else {
        1 + window_index(clients.drop_first(), address)
    }
}

/// The index is in range, has the address, and no earlier one has it.
pub proof fn lemma_window_index(clients: Seq<WindowInfo>, address: Seq<char>)
    ensures
        0 <= window_index(clients, address) <= clients.len(),
        window_index(clients, address) < clients.len() ==> clients[window_index(
            clients,
            address,
        )].address@ == address,
        forall|j: int|
            0 <= j < window_index(clients, address) ==> (#[trigger] clients[j]).address@ != address,
    decreases clients.len(),
{
    if clients.len() > 0 && clients[0].address@ != address {
        lemma_window_index(clients.drop_first(), address);
        assert forall|j: int| 0 <= j < window_index(clients, address) implies (
        #[trigger] clients[j]).address@ != address by {
            if j > 0 {
                assert(clients.drop_first()[j - 1] == clients[j]);
            }
        }
    }
}

/// The index of the first window with this address.
pub fn find_window(clients: &Vec<WindowInfo>, address: &str) -> (r: Option<usize>)
    ensures
        match r {
            Some(i) => i < clients@.len() && i == window_index(clients@, address@),
            None => window_index(clients@, address@) == clients@.len(),
        },
{
    let mut i: usize = 0;
    while i < clients.len()
        invariant
            i <= clients@.len(),
            forall|j: int| 0 <= j < i ==> (#[trigger] clients@[j]).address@ != address@,
        decreases clients@.len() - i,
    {
        if same(clients[i].address.as_str(), address) {
            proof {
                lemma_window_index(clients@, address@);
                assert(clients@[i as int].address@ == address@);
            }
            return Some(i);
        }
        i = i + 1;
    }
    proof {
        lemma_window_index(clients@, address@);
    }
    None
}

/// No window has the address that was asked for.
pub struct WindowNotFound {
    pub address: String,
}

impl WindowNotFound {
    /// What to tell the user.
    pub fn message(&self) -> (r: String)
        ensures
            r@ == "Could not find a window with address '"@ + self.address@ + "'"@,
    {
        concat2("Could not find a window with address '", self.address.as_str()).concat("'")
    }
}

/// The first of all clients that has this address.
pub fn get_window_by_address(clients: &Vec<WindowInfo>, address: &str) -> (r: Result<
    WindowInfo,
    WindowNotFound,
>)
    ensures
        match r {
            Ok(window) => window_index(clients@, address@) < clients@.len() && window
                == clients@[window_index(clients@, address@)],
            Err(e) => window_index(clients@, address@) == clients@.len() && e.address@ == address@,
        },
{
    match find_window(clients, address) {
        Some(i) => Ok(clients[i].clone()),
        None => Err(WindowNotFound { address: address.to_owned() }),
    }
}

/// A window is found by its address if and only if one of the clients has that address, and
/// then the window that is found has it.
pub proof fn law_window_found(clients: Seq<WindowInfo>, address: Seq<char>)
    ensures
        window_index(clients, address) < clients.len() <==> exists|i: int|
            0 <= i < clients.len() && (#[trigger] clients[i]).address@ == address,
        window_index(clients, address) < clients.len() ==> clients[window_index(
            clients,
            address,
        )].address@ == address,
{
    lemma_window_index(clients, address);
}

/// A silent move does not follow the window, and any other does; workspace and address stand in
/// the expression as they are.
pub proof fn law_move_lua(workspace: Seq<char>, address: Seq<char>)
    ensures
        move_lua(workspace, address, true) == "hl.dispatch(hl.dsp.window.move({workspace = '"@
            + workspace + "', follow = false, window = 'address:"@ + address + "'}))"@,
        move_lua(workspace, address, false) == "hl.dispatch(hl.dsp.window.move({workspace = '"@
            + workspace + "', follow = true, window = 'address:"@ + address + "'}))"@,
{
    reveal_strlit("', follow = ");
    reveal_strlit("false");
    reveal_strlit("true");
    reveal_strlit(", window = 'address:");
    reveal_strlit("', follow = false, window = 'address:");
    reveal_strlit("', follow = true, window = 'address:");
    assert("', follow = "@ + "false"@ + ", window = 'address:"@
        == "', follow = false, window = 'address:"@);
    assert("', follow = "@ + "true"@ + ", window = 'address:"@
        == "', follow = true, window = 'address:"@);
    let head = "hl.dispatch(hl.dsp.window.move({workspace = '"@ + workspace;
    let tail = address + "'}))"@;
    assert(move_lua(workspace, address, true) == head + ("', follow = "@ + "false"@
        + ", window = 'address:"@) + tail);
    assert(move_lua(workspace, address, false) == head + ("', follow = "@ + "true"@
        + ", window = 'address:"@) + tail);
}

/// The expressions that focus and close a window hold its address as it is, and nothing else of
/// it.
pub proof fn law_focus_and_close_lua(address: Seq<char>)
    ensures
        focus_lua(address) == "hl.dispatch(hl.dsp.focus({window = 'address:"@ + address + "'}))"@,
        close_lua(address) == "hl.dispatch(hl.dsp.window.close({window = 'address:"@ + address
            + "'}))"@,
{
}

/// The window with an address is the first that has it, whatever follows; where none has it,
/// none is found.
pub proof fn law_first_window(
    before: Seq<WindowInfo>,
    window: WindowInfo,
    after: Seq<WindowInfo>,
    address: Seq<char>,
)
    requires
        window.address@ == address,
        forall|j: int| 0 <= j < before.len() ==> (#[trigger] before[j]).address@ != address,
    ensures
        window_index(before + seq![window] + after, address) == before.len(),
        window_index(before, address) == before.len(),
    decreases before.len(),
{
    let all = before + seq![window] + after;
    if before.len() > 0 {
        let rest = before.drop_first();
        assert forall|j: int| 0 <= j < rest.len() implies (#[trigger] rest[j]).address@
            != address by {
            assert(rest[j] == before[j + 1]);
        }
        law_first_window(rest, window, after, address);
        assert(all[0] == before[0]);
        assert(all.drop_first() == rest + seq![window] + after);
    } else {
        assert(all[0] == window);
    }
}

} // verus!
