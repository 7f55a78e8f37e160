//! The breakpoint table: a session-scoped record of every breakpoint the user
//! has set, keyed by code address, remembering the displaced original byte
//! once the breakpoint has been planted in a live inferior.

use vstd::prelude::*;

verus! {

/// One breakpoint: its code address and the instruction byte displaced by the
/// planted trap opcode. `orig_byte` is meaningful only once the breakpoint has
/// been planted; a freshly inserted entry carries zero.
#[derive(Clone, Copy, Debug, PartialEq, Eq, Structural)]
pub struct Breakpoint {
    pub addr: usize,
    pub orig_byte: u8,
}

/// Mapping from code address to breakpoint, with insertion order kept so that
/// each `break` command can echo a stable zero-based ordinal.
pub struct BreakpointTable {
    entries: Vec<Breakpoint>,
}

impl View for BreakpointTable {
    type V = Seq<Breakpoint>;

    closed spec fn view(&self) -> Seq<Breakpoint> {
        self.entries@
    }
}

/// The sequence holds an entry at this code address.
pub open spec fn seq_has_addr(s: Seq<Breakpoint>, addr: usize) -> bool {
    exists|i: int| 0 <= i < s.len() && s[i].addr == addr
}

impl BreakpointTable {
    /// Each address appears at most once.
    pub open spec fn wf(&self) -> bool {
        forall|i: int, j: int|
            0 <= i < j < self@.len() ==> self@[i].addr != self@[j].addr
    }

    /// The table holds an entry at this code address.
    pub open spec fn has_addr(&self, addr: usize) -> bool {
        seq_has_addr(self@, addr)
    }

    /// The entry recorded for `addr`.
    pub open spec fn entry_at(&self, addr: usize) -> Breakpoint
        recommends
            self.has_addr(addr),
    {
        self@[choose|i: int| 0 <= i < self@.len() && self@[i].addr == addr]
    }

    pub fn new() -> (r: BreakpointTable)
        ensures
            r.wf(),
            r@.len() == 0,
    {
        BreakpointTable { entries: Vec::new() }
    }

    /// Number of entries, which also assigns the next ordinal.
    pub fn len(&self) -> (r: usize)
        ensures
            r == self@.len(),
    {
        self.entries.len()
    }

    /// The entry at position `i`, in insertion order.
    pub fn nth(&self, i: usize) -> (r: Breakpoint)
        requires
            i < self@.len(),
        ensures
            r == self@[i as int],
    {
        self.entries[i]
    }

    fn index_of(&self, addr: usize) -> (r: Option<usize>)
        ensures
            match r {
                Some(i) => i < self@.len() && self@[i as int].addr == addr,
                None => !self.has_addr(addr),
            },
    {
        let mut i: usize = 0;
        let n = self.entries.len();
        while i < n
            invariant
                i <= n,
                n == self@.len(),
                forall|j: int| 0 <= j < i ==> self@[j].addr != addr,
            decreases n - i,
        {
            if self.entries[i].addr == addr {
                return Some(i);
            }
            i += 1;
        }
        None
    }

    /// Record a breakpoint at `addr` with a cleared original byte, replacing
    /// any earlier entry at the same address, and return the ordinal echoed
    /// to the user.
    pub fn insert(&mut self, addr: usize) -> (ord: usize)
        requires
            old(self).wf(),
            old(self)@.len() < usize::MAX,
        ensures
            final(self).wf(),
            final(self).has_addr(addr),
            final(self).entry_at(addr) == (Breakpoint { addr, orig_byte: 0 }),
            ord == final(self)@.len() - 1,
            old(self).has_addr(addr) ==> final(self)@.len() == old(self)@.len(),
            !old(self).has_addr(addr) ==> final(self)@ == old(self)@.push(
                Breakpoint { addr, orig_byte: 0 },
            ),
            forall|a: usize|
                a != addr ==> #[trigger] final(self).has_addr(a) == old(self).has_addr(a),
            forall|a: usize|
                a != addr && old(self).has_addr(a) ==> #[trigger] final(self).entry_at(a) == old(
                    self,
                ).entry_at(a),
    {
        let bp = Breakpoint { addr, orig_byte: 0 };
        let ghost pre = self@;
        match self.index_of(addr) {
            Some(i) => {
                self.entries[i] = bp;
                proof {
                    lemma_entry_at_unique(self@, addr, i as int);
                    assert forall|a: usize|
                        a != addr implies #[trigger] seq_has_addr(self@, a) == seq_has_addr(
                        pre,
                        a,
                    ) by {
                        lemma_update_other_addrs(pre, self@, i as int, a);
                    }
                    assert forall|a: usize|
                        a != addr && seq_has_addr(pre, a) implies #[trigger] self.entry_at(a)
                        == pre[choose|k: int| 0 <= k < pre.len() && pre[k].addr == a] by {
                        lemma_update_other_addrs(pre, self@, i as int, a);
                    }
                }
            },
            None => {
                self.entries.push(bp);
                proof {
                    lemma_entry_at_unique(self@, addr, pre.len() as int);
                    assert forall|a: usize|
                        a != addr implies #[trigger] seq_has_addr(self@, a) == seq_has_addr(
                        pre,
                        a,
                    ) by {
                        lemma_push_other_addrs(pre, self@, a);
                    }
                    assert forall|a: usize|
                        a != addr && seq_has_addr(pre, a) implies #[trigger] self.entry_at(a)
                        == pre[choose|k: int| 0 <= k < pre.len() && pre[k].addr == a] by {
                        lemma_push_other_addrs(pre, self@, a);
                    }
                }
            },
        }
        self.entries.len() - 1
    }

    /// Look up the breakpoint recorded at `addr`.
    pub fn get(&self, addr: usize) -> (r: Option<Breakpoint>)
        requires
            self.wf(),
        ensures
            match r {
                Some(bp) => self.has_addr(addr) && bp == self.entry_at(addr),
                None => !self.has_addr(addr),
            },
    {
        match self.index_of(addr) {
            Some(i) => {
                proof {
                    lemma_entry_at_unique(self@, addr, i as int);
                }
                Some(self.entries[i])
            },
            None => None,
        }
    }

    /// Record the byte displaced when the breakpoint at `addr` was planted.
    pub fn set_orig(&mut self, addr: usize, orig: u8)
        requires
            old(self).wf(),
            old(self).has_addr(addr),
        ensures
            final(self).wf(),
            final(self)@.len() == old(self)@.len(),
            final(self).has_addr(addr),
            final(self).entry_at(addr) == (Breakpoint { addr, orig_byte: orig }),
            forall|a: usize|
                a != addr ==> #[trigger] final(self).has_addr(a) == old(self).has_addr(a),
            forall|a: usize|
                a != addr && old(self).has_addr(a) ==> #[trigger] final(self).entry_at(a) == old(
                    self,
                ).entry_at(a),
    {
        let ghost pre = self@;
        match self.index_of(addr) {
            Some(i) => {
                self.entries[i] = Breakpoint { addr, orig_byte: orig };
                proof {
                    lemma_entry_at_unique(self@, addr, i as int);
                    assert forall|a: usize|
                        a != addr implies #[trigger] seq_has_addr(self@, a) == seq_has_addr(
                        pre,
                        a,
                    ) by {
                        lemma_update_other_addrs(pre, self@, i as int, a);
                    }
                    assert forall|a: usize|
                        a != addr && seq_has_addr(pre, a) implies #[trigger] self.entry_at(a)
                        == pre[choose|k: int| 0 <= k < pre.len() && pre[k].addr == a] by {
                        lemma_update_other_addrs(pre, self@, i as int, a);
                    }
                }
            },
            None => {
                proof {
                    assert(false);
                }
            },
        }
    }
}

proof fn lemma_entry_at_unique(s: Seq<Breakpoint>, addr: usize, i: int)
    requires
        forall|p: int, q: int| 0 <= p < q < s.len() ==> s[p].addr != s[q].addr,
        0 <= i < s.len(),
        s[i].addr == addr,
    ensures
        seq_has_addr(s, addr),
        s[choose|k: int| 0 <= k < s.len() && s[k].addr == addr] == s[i],
{
    let k = choose|k: int| 0 <= k < s.len() && s[k].addr == addr;
    if k != i {
        if k < i {
            assert(s[k].addr != s[i].addr);
        } else {
            assert(s[i].addr != s[k].addr);
        }
    }
}

proof fn lemma_update_other_addrs(pre: Seq<Breakpoint>, post: Seq<Breakpoint>, i: int, a: usize)
    requires
        0 <= i < pre.len(),
        post.len() == pre.len(),
        forall|j: int| 0 <= j < pre.len() && j != i ==> post[j] == pre[j],
        post[i].addr == pre[i].addr,
        forall|p: int, q: int| 0 <= p < q < pre.len() ==> pre[p].addr != pre[q].addr,
        a != pre[i].addr,
    ensures
        seq_has_addr(post, a) == seq_has_addr(pre, a),
        seq_has_addr(pre, a) ==> post[choose|k: int|
            0 <= k < post.len() && post[k].addr == a] == pre[choose|k: int|
            0 <= k < pre.len() && pre[k].addr == a],
{
    if seq_has_addr(pre, a) {
        let k = choose|k: int| 0 <= k < pre.len() && pre[k].addr == a;
        assert(post[k].addr == a);
        assert(seq_has_addr(post, a));
        let k2 = choose|k2: int| 0 <= k2 < post.len() && post[k2].addr == a;
        assert(post[k2].addr == a);
        assert(k2 != i);
        assert(pre[k2].addr == a);
        if k != k2 {
            if k < k2 {
                assert(pre[k].addr != pre[k2].addr);
            } else {
                assert(pre[k2].addr != pre[k].addr);
            }
        }
    }
    if seq_has_addr(post, a) {
        let k = choose|k: int| 0 <= k < post.len() && post[k].addr == a;
        assert(k != i);
        assert(pre[k].addr == a);
        assert(seq_has_addr(pre, a));
    }
}

proof fn lemma_push_other_addrs(pre: Seq<Breakpoint>, post: Seq<Breakpoint>, a: usize)
    requires
        post.len() == pre.len() + 1,
        forall|j: int| 0 <= j < pre.len() ==> post[j] == pre[j],
        a != post[pre.len() as int].addr,
        forall|p: int, q: int| 0 <= p < q < pre.len() ==> pre[p].addr != pre[q].addr,
    ensures
        seq_has_addr(post, a) == seq_has_addr(pre, a),
        seq_has_addr(pre, a) ==> post[choose|k: int|
            0 <= k < post.len() && post[k].addr == a] == pre[choose|k: int|
            0 <= k < pre.len() && pre[k].addr == a],
{
    if seq_has_addr(pre, a) {
        let k = choose|k: int| 0 <= k < pre.len() && pre[k].addr == a;
        assert(post[k].addr == a);
        assert(seq_has_addr(post, a));
        let k2 = choose|k2: int| 0 <= k2 < post.len() && post[k2].addr == a;
        assert(k2 != pre.len());
        assert(pre[k2] == post[k2]);
        if k != k2 {
            if k < k2 {
                assert(pre[k].addr != pre[k2].addr);
            } else {
                assert(pre[k2].addr != pre[k].addr);
            }
        }
    }
    if seq_has_addr(post, a) {
        let k = choose|k: int| 0 <= k < post.len() && post[k].addr == a;
        assert(k != pre.len());
        assert(pre[k].addr == a);
        assert(seq_has_addr(pre, a));
    }
}

} // verus!
