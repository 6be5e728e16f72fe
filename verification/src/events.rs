//! The filesystem event bridge: which change notifications qualify as a
//! finalized file, which paths are noise, and the bounded queue that carries
//! qualifying events from the watcher callback into the daemon.
//!
//! Only close-after-write and completed renames count; temporary artifacts
//! (a transient suffix, or a hidden-file marker on the final path component)
//! are dropped. A qualifying event is acted on only after a settle delay, so
//! the filesystem can flush its cache. The queue is deliberately bounded,
//! with a drop-oldest policy under event storms.

use vstd::prelude::*;
use crate::strutil::{ends_with, is_prefix, is_suffix, last_index_of, starts_with};

verus! {

/// Pause after a finalize event before the file is read, in milliseconds.
pub const SETTLE_DELAY_MS: u64 = 1000;

/// The kinds of change notification the bridge distinguishes.
#[derive(Clone, Copy, Debug, PartialEq, Eq, Structural)]
pub enum FsEventKind {
    /// A file opened for writing was closed.
    CloseWrite,
    /// A rename whose destination is the observed path.
    RenameTo,
    /// A rename with both source and destination observed.
    RenameBoth,
    /// Anything else.
    Other,
}

/// Only finalizing events qualify.
pub open spec fn event_qualifies_spec(kind: FsEventKind) -> bool {
    kind == FsEventKind::CloseWrite || kind == FsEventKind::RenameTo || kind
        == FsEventKind::RenameBoth
}

/// Whether this notification kind marks a finalized file.
pub fn event_qualifies(kind: FsEventKind) -> (r: bool)
    ensures
        r == event_qualifies_spec(kind),
{
    match kind {
        FsEventKind::CloseWrite => true,
        FsEventKind::RenameTo => true,
        FsEventKind::RenameBoth => true,
        FsEventKind::Other => false,
    }
}

/// `i` is the position of the last path separator of `p`.
pub open spec fn sep_at(p: Seq<char>, i: int) -> bool {
    &&& 0 <= i < p.len()
    &&& p[i] == '/'
    &&& forall|j: int| i < j < p.len() ==> p[j] != '/'
}

/// `p` contains a path separator.
pub open spec fn has_sep(p: Seq<char>) -> bool {
    exists|i: int| sep_at(p, i)
}

/// Position of the last path separator.
pub open spec fn sep_index(p: Seq<char>) -> int {
    choose|i: int| sep_at(p, i)
}

/// The final path component.
pub open spec fn base_name(p: Seq<char>) -> Seq<char> {
    if has_sep(p) {
        p.subrange(sep_index(p) + 1, p.len() as int)
    } else {
        p
    }
}

proof fn lemma_sep_at(p: Seq<char>, i: int)
    requires
        sep_at(p, i),
    ensures
        has_sep(p),
        sep_index(p) == i,
{
    let j = sep_index(p);
    assert(sep_at(p, j));
    if i < j {
        assert(p[j] != '/');
    } else if j < i {
        assert(p[i] != '/');
    }
}

/// A path is transient noise when it carries a temporary suffix or its final
/// component is hidden.
pub open spec fn is_transient_path(p: Seq<char>) -> bool {
    is_suffix(p, ".tmp"@) || is_suffix(p, ".pending"@) || is_prefix(base_name(p), "."@)
}

/// The final path component.
pub fn base_name_of(p: &str) -> (r: String)
    ensures
        r@ == base_name(p@),
{
    let len = p.unicode_len();
    match last_index_of(p, '/') {
        Some(i) => {
            proof {
                lemma_sep_at(p@, i as int);
            }
            let base = p.substring_char(i + 1, len);
            base.to_owned()
        },
        None => {
            proof {
                assert(!has_sep(p@)) by {
                    if has_sep(p@) {
                        let i = sep_index(p@);
                        assert(sep_at(p@, i));
                        assert(p@[i] == '/');
                    }
                }
            }
            p.to_owned()
        },
    }
}

/// Whether `p` is a transient artifact to drop.
pub fn path_is_transient(p: &str) -> (r: bool)
    ensures
        r == is_transient_path(p@),
{
    if ends_with(p, ".tmp") {
        return true;
    }
    if ends_with(p, ".pending") {
        return true;
    }
    let base = base_name_of(p);
    starts_with(base.as_str(), ".")
}

/// Whether an event should reach the outbound orchestrator: a finalizing
/// kind on a non-transient path.
pub fn should_forward(kind: FsEventKind, path: &str) -> (r: bool)
    ensures
        r == (event_qualifies_spec(kind) && !is_transient_path(path@)),
{
    event_qualifies(kind) && !path_is_transient(path)
}

/// Bounded queue of paths from the watcher callback to the consumer task.
/// When full, the oldest entry is dropped in favour of the new one.
pub struct EventQueue {
    items: Vec<String>,
    cap: usize,
}

impl EventQueue {
    /// The queued paths, oldest first.
    pub closed spec fn view(&self) -> Seq<Seq<char>> {
        self.items.deep_view()
    }

    /// The fixed capacity.
    pub closed spec fn capacity(&self) -> usize {
        self.cap
    }

    /// The queue never outgrows its capacity.
    pub open spec fn wf(&self) -> bool {
        &&& self@.len() <= self.capacity()
        &&& self.capacity() >= 1
    }

    /// An empty queue with room for `cap` paths.
    pub fn new(cap: usize) -> (r: EventQueue)
        requires
            cap >= 1,
        ensures
            r.wf(),
            r@ == Seq::<Seq<char>>::empty(),
            r.capacity() == cap,
    {
        let r = EventQueue { items: Vec::new(), cap };
        proof {
            assert(r@ =~= Seq::<Seq<char>>::empty());
        }
        r
    }

    /// Number of queued paths.
    pub fn len(&self) -> (r: usize)
        ensures
            r == self@.len(),
    {
        self.items.len()
    }

    /// Enqueues a path; at capacity, the oldest queued path is dropped.
    pub fn push(&mut self, path: String)
        requires
            old(self).wf(),
        ensures
            final(self).wf(),
            final(self).capacity() == old(self).capacity(),
            old(self)@.len() < old(self).capacity() ==> final(self)@ == old(self)@.push(path@),
            old(self)@.len() >= old(self).capacity() ==> final(self)@ == old(
                self,
            )@.drop_first().push(path@),
    {
        let ghost prev = self.items.deep_view();
        if self.items.len() >= self.cap {
            let _ = self.items.remove(0);
            proof {
                assert(self.items.deep_view() =~= prev.drop_first());
            }
        }
        let ghost mid = self.items.deep_view();
        self.items.push(path);
        proof {
            assert(self.items.deep_view() =~= mid.push(path@));
        }
    }

    /// Dequeues the oldest path, if any.
    pub fn pop(&mut self) -> (r: Option<String>)
        requires
            old(self).wf(),
        ensures
            final(self).wf(),
            final(self).capacity() == old(self).capacity(),
            old(self)@.len() == 0 ==> r is None && final(self)@ == old(self)@,
            old(self)@.len() > 0 ==> (r matches Some(p) && p@ == old(self)@[0] && final(self)@
                == old(self)@.drop_first()),
    {
        let ghost prev = self.items.deep_view();
        if self.items.len() == 0 {
            None
        } else {
            let p = self.items.remove(0);
            proof {
                assert(self.items.deep_view() =~= prev.drop_first());
            }
            Some(p)
        }
    }
}

} // verus!
