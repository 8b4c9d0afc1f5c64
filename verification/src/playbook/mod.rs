//! Playbooks: their model, their reading from a document, the rendering of
//! their templates and the decisions of a run.

pub mod args;
pub mod exec;
pub mod filters;
pub mod handlers;
pub mod loops;
pub mod outcome;
pub mod parser;
pub mod play;
pub mod task;
pub mod templar;

use vstd::prelude::*;
use crate::inventory::{host_views, matched, selection, Inventory};
use crate::inventory::host::Host;
pub use crate::playbook::handlers::Handler;
use crate::playbook::parser::Playbook;
pub use crate::playbook::play::Play;
pub use crate::playbook::task::{Task, TaskResult};

verus! {

/// The next play to run and the hosts to run it on: the first play at or
/// after position `from` whose pattern selects a host. A play whose pattern
/// selects none is passed over.
pub fn next_play(playbook: &Playbook, inventory: &Inventory, from: usize) -> (r: Option<
    (usize, Vec<Host>),
>)
    ensures
        match r {
            Some(found) => from <= found.0 < playbook@.plays.len() && found.1@.len() > 0
                && (exists|keys: Seq<Seq<char>>|
                selection(inventory@, playbook@.plays[found.0 as int].hosts, keys, host_views(found.1@)))
                && forall|j: int|
                from <= j < found.0 ==> matched(inventory@, (#[trigger] playbook@.plays[j]).hosts)
                    =~= Set::<Seq<char>>::empty(),
            None => forall|j: int|
                from <= j < playbook@.plays.len() ==> matched(
                    inventory@,
                    (#[trigger] playbook@.plays[j]).hosts,
                ) =~= Set::<Seq<char>>::empty(),
        },
{
    let mut i: usize = from;
    while i < playbook.plays.len()
        invariant
            from <= i,
            forall|j: int|
                from <= j < i && j < playbook@.plays.len() ==> matched(
                    inventory@,
                    (#[trigger] playbook@.plays[j]).hosts,
                ) =~= Set::<Seq<char>>::empty(),
        decreases playbook.plays.len() - i,
    {
        let hosts = inventory.filter_hosts(playbook.plays[i].hosts.as_str());
        assert(playbook@.plays[i as int].hosts == playbook.plays@[i as int].hosts@);
        if hosts.len() > 0 {
            return Some((i, hosts));
        }
        proof {
            let keys = choose|keys: Seq<Seq<char>>|
                selection(inventory@, playbook@.plays[i as int].hosts, keys, host_views(hosts@));
            assert(keys.len() == 0);
            assert forall|k: Seq<char>|
                !matched(inventory@, playbook@.plays[i as int].hosts).contains(k) by {
                if matched(inventory@, playbook@.plays[i as int].hosts).contains(k) {
                    assert(keys.contains(k));
                }
            }
        }
        i = i + 1;
    }
    None
}

/// Whether a run ends after a play: only where the play failed and the
/// playbook asks for that.
pub fn stops_after(playbook: &Playbook, play_failed: bool) -> (r: bool)
    ensures
        r == (play_failed && playbook@.fail_fast),
{
    play_failed && playbook.fail_fast
}

} // verus!
