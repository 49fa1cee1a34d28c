//! The global keyboard shortcuts the application registers, with what
//! each one does.  Registration itself is platform work; this is the
//! single place the bindings are defined.

use vstd::prelude::*;

verus! {

/// The shortcut bindings, as (keys, action) pairs.
pub fn get_shortcut_list() -> (r: Vec<(&'static str, &'static str)>)
    ensures
        r@.len() == 6,
        r@[0].0@ == "CmdOrCtrl+Shift+A"@ && r@[0].1@ == "Quick Add Task"@,
        r@[1].0@ == "CmdOrCtrl+Shift+F"@ && r@[1].1@ == "Start Focus Mode"@,
        r@[2].0@ == "CmdOrCtrl+Shift+T"@ && r@[2].1@ == "Show Today's Tasks"@,
        r@[3].0@ == "CmdOrCtrl+Shift+C"@ && r@[3].1@ == "Toggle Cling Window"@,
        r@[4].0@ == "CmdOrCtrl+Shift+E"@ && r@[4].1@ == "Start/Stop Focus Session"@,
        r@[5].0@ == "CmdOrCtrl+Shift+N"@ && r@[5].1@ == "Show Notifications"@,
{
    let mut r: Vec<(&'static str, &'static str)> = Vec::new();
    r.push(("CmdOrCtrl+Shift+A", "Quick Add Task"));
    r.push(("CmdOrCtrl+Shift+F", "Start Focus Mode"));
    r.push(("CmdOrCtrl+Shift+T", "Show Today's Tasks"));
    r.push(("CmdOrCtrl+Shift+C", "Toggle Cling Window"));
    r.push(("CmdOrCtrl+Shift+E", "Start/Stop Focus Session"));
    r.push(("CmdOrCtrl+Shift+N", "Show Notifications"));
    r
}

} // verus!
