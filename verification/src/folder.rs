//! The folder-traversal scheduler: a FIFO queue of directory tasks,
//! breadth-first, that never descends into an output directory named
//! `redacted`, and an aggregator for per-file results.
//!
//! The scheduler only decides; listing directories, creating the output
//! folder and running the per-file jobs are the caller's side of the loop.

use vstd::prelude::*;
use std::collections::VecDeque;

use crate::error::RedactError;
use crate::files::file_name_spec;
use crate::files::file_name_of;

verus! {

/// One queued directory, waiting for its files to be dispatched.
#[derive(Clone, Debug)]
pub struct DirectoryTask {
    /// The directory's path.
    pub path: String,
}

/// Whether a path names this tool's own output directory, which is never
/// re-traversed.
pub open spec fn is_output_dir(path: Seq<char>) -> bool {
    file_name_spec(path) == "redacted"@
}

/// The subdirectories that a recursive traversal enqueues: all but output
/// directories, in listing order.
pub open spec fn enqueued_dirs(dirs: Seq<Seq<char>>) -> Seq<Seq<char>>
    decreases dirs.len(),
{
    if dirs.len() == 0 {
        Seq::empty()
    } else {
        let rest = enqueued_dirs(dirs.drop_last());
        if is_output_dir(dirs.last()) {
            rest
        } else {
            rest.push(dirs.last())
        }
    }
}

/// The breadth-first directory scheduler.
pub struct FolderScheduler {
    queue: VecDeque<DirectoryTask>,
    recursive: bool,
}

impl FolderScheduler {
    /// The paths still queued, front first.
    pub closed spec fn queue_view(&self) -> Seq<Seq<char>> {
        self.queue@.map_values(|t: DirectoryTask| t.path@)
    }

    /// Whether subdirectories are traversed at all.
    pub closed spec fn recursive_spec(&self) -> bool {
        self.recursive
    }

    /// A fresh scheduler with only the user-specified root queued.
    pub fn new(root: String, recursive: bool) -> (r: FolderScheduler)
        ensures
            r.queue_view() == seq![root@],
            r.recursive_spec() == recursive,
    {
        let mut queue: VecDeque<DirectoryTask> = VecDeque::new();
        queue.push_back(DirectoryTask { path: root });
        let r = FolderScheduler { queue, recursive };
        proof {
            assert(r.queue_view() =~= seq![r.queue@[0].path@]);
        }
        r
    }

    /// Dequeues the next directory, in FIFO discovery order; `None` once
    /// the queue is empty, the traversal's terminal state.
    pub fn next_dir(&mut self) -> (r: Option<DirectoryTask>)
        ensures
            old(self).queue_view().len() == 0 ==> r is None && final(self).queue_view()
                == old(self).queue_view(),
            old(self).queue_view().len() > 0 ==> (r matches Some(t) && t.path@ == old(
                self,
            ).queue_view()[0] && final(self).queue_view() == old(self).queue_view().drop_first()),
            final(self).recursive_spec() == old(self).recursive_spec(),
    {
        let r = self.queue.pop_front();
        proof {
            if old(self).queue@.len() > 0 {
                assert(self.queue_view() =~= old(self).queue_view().drop_first());
            }
        }
        r
    }

    /// Queues the discovered subdirectories of the directory being
    /// processed: all of them but any named `redacted`, and only when the
    /// traversal is recursive.
    pub fn enqueue_subdirs(&mut self, dirs: &Vec<String>)
        ensures
            final(self).recursive_spec() == old(self).recursive_spec(),
            old(self).recursive_spec() ==> final(self).queue_view() == old(self).queue_view()
                + enqueued_dirs(dirs@.map_values(|s: String| s@)),
            !old(self).recursive_spec() ==> final(self).queue_view() == old(self).queue_view(),
    {
        if !self.recursive {
            return ;
        }
        let ghost all = dirs@.map_values(|s: String| s@);
        let mut i: usize = 0;
        while i < dirs.len()
            invariant
                0 <= i <= dirs@.len(),
                all == dirs@.map_values(|s: String| s@),
                self.recursive == old(self).recursive,
                self.queue_view() == old(self).queue_view() + enqueued_dirs(
                    all.take(i as int),
                ),
            decreases dirs@.len() - i,
        {
            proof {
                assert(all.take(i + 1).drop_last() =~= all.take(i as int));
                assert(all.take(i + 1).last() == dirs@[i as int]@);
            }
            let name = file_name_of(&dirs[i]);
            let ghost q0 = self.queue_view();
            if !(name == "redacted".to_owned()) {
                self.queue.push_back(DirectoryTask { path: dirs[i].clone() });
                proof {
                    assert(self.queue_view() =~= q0.push(dirs@[i as int]@));
                    assert(self.queue_view() =~= old(self).queue_view() + enqueued_dirs(
                        all.take(i + 1),
                    ));
                }
            } else {
                proof {
                    assert(is_output_dir(all[i as int]));
                }
            }
            i += 1;
        }
        proof {
            assert(all.take(dirs@.len() as int) =~= all);
        }
    }
}

/// How many per-file results are failures.
pub open spec fn failure_count(results: Seq<Result<(), RedactError>>) -> nat
    decreases results.len(),
{
    if results.len() == 0 {
        0
    } else {
        failure_count(results.drop_last()) + if results.last() is Err {
            1nat
        } else {
            0nat
        }
    }
}

/// Aggregates the per-file results of one directory: every file reached
/// success or a recorded failure, and this counts the failures.
pub fn count_failures(results: &Vec<Result<(), RedactError>>) -> (r: usize)
    ensures
        r as nat == failure_count(results@),
{
    let mut n: usize = 0;
    let mut i: usize = 0;
    while i < results.len()
        invariant
            0 <= i <= results@.len(),
            n as nat == failure_count(results@.take(i as int)),
            n <= i,
        decreases results@.len() - i,
    {
        proof {
            assert(results@.take(i + 1).drop_last() =~= results@.take(i as int));
            assert(results@.take(i + 1).last() == results@[i as int]);
        }
        if results[i].is_err() {
            n += 1;
        }
        i += 1;
    }
    proof {
        assert(results@.take(results@.len() as int) =~= results@);
    }
    n
}

} // verus!
