use vstd::prelude::*;
use crate::errors::HarnessError;
use crate::mode::CreateMode;
use crate::names::node_name;
use crate::names::spec_node_name;
use crate::names::lemma_node_name_injective;

verus! {

/// One child of the benchmark root, as the harness models it: the numeric
/// suffix of its name (`node_<suffix>` when rendered), the session that
/// created it, and how it was created. Ephemeral children live only as
/// long as their owning session; sequential children carry a
/// service-assigned suffix.
#[derive(Clone, Copy, Debug, PartialEq, Eq, Structural)]
pub struct ChildEntry {
    pub suffix: u64,
    pub owner: u64,
    pub ephemeral: bool,
    pub sequential: bool,
}

/// Whether some child in `cs` already uses `suffix`.
pub open spec fn has_suffix(cs: Seq<ChildEntry>, suffix: u64) -> bool {
    exists|i: int| 0 <= i < cs.len() && cs[i].suffix == suffix
}

/// Whether `e` survives the close of session `sid`: everything but the
/// ephemeral children that session owns.
pub open spec fn surviving_close(e: ChildEntry, sid: u64) -> bool {
    !(e.ephemeral && e.owner == sid)
}

/// The children left after session `sid` closes, in their original order.
pub open spec fn remove_session(cs: Seq<ChildEntry>, sid: u64) -> Seq<ChildEntry>
    decreases cs.len(),
{
    if cs.len() == 0 {
        Seq::empty()
    } else {
        let rest = remove_session(cs.drop_last(), sid);
        if surviving_close(cs.last(), sid) {
            rest.push(cs.last())
        } else {
            rest
        }
    }
}

/// How many children the close of session `sid` deletes.
pub open spec fn owned_count(cs: Seq<ChildEntry>, sid: u64) -> nat
    decreases cs.len(),
{
    if cs.len() == 0 {
        0
    } else {
        owned_count(cs.drop_last(), sid) + if surviving_close(cs.last(), sid) {
            0nat
        } else {
            1nat
        }
    }
}

/// Well-formedness of a child list under a sequencer value: suffixes (and
/// with them rendered names) are pairwise distinct, and service-assigned
/// (sequential) suffixes strictly increase in creation order, all below
/// the sequencer's next value.
pub open spec fn children_wf(cs: Seq<ChildEntry>, next_seq: u64) -> bool {
    &&& forall|i: int, j: int|
        0 <= i < j < cs.len() ==> #[trigger] cs[i].suffix != #[trigger] cs[j].suffix
    &&& forall|i: int, j: int|
        0 <= i < j < cs.len() && cs[i].sequential && cs[j].sequential ==> #[trigger] cs[i].suffix
            < #[trigger] cs[j].suffix
    &&& forall|i: int| 0 <= i < cs.len() && (#[trigger] cs[i]).sequential ==> cs[i].suffix < next_seq
}

/// The harness's model of the coordination service, restricted to what one
/// run touches: one optional root node, its children in creation order,
/// and the root's per-parent sequencer for sequential creates.
pub struct SimService {
    pub root_exists: bool,
    pub root_version: u64,
    pub children: Vec<ChildEntry>,
    pub next_seq: u64,
}

impl SimService {
    /// The model's invariant: no children without a root, and a
    /// well-formed child list.
    pub open spec fn wf(self) -> bool {
        &&& !self.root_exists ==> self.children@.len() == 0
        &&& children_wf(self.children@, self.next_seq)
    }

    /// A service with no benchmark root yet.
    pub fn new() -> (r: SimService)
        ensures
            !r.root_exists,
            r.next_seq == 0,
            r.children@.len() == 0,
            r.wf(),
    {
        SimService { root_exists: false, root_version: 0, children: Vec::new(), next_seq: 0 }
    }

    /// `exists` on the root path: its version when present, needed for a
    /// guarded delete.
    pub fn exists_root(&self) -> (r: Option<u64>)
        ensures
            match r {
                Some(v) => self.root_exists && v == self.root_version,
                None => !self.root_exists,
            },
    {
        if self.root_exists {
            Some(self.root_version)
        } else {
            None
        }
    }

    /// Creates the root as an empty persistent node; collides if a root is
    /// already there. A fresh root starts its sequencer at zero.
    pub fn create_root(&mut self) -> (r: Result<(), HarnessError>)
        ensures
            match r {
                Ok(()) => {
                    &&& !old(self).root_exists
                    &&& final(self).root_exists
                    &&& final(self).root_version == 0
                    &&& final(self).children@.len() == 0
                    &&& final(self).next_seq == 0
                    &&& final(self).wf()
                },
                Err(e) => {
                    &&& e == HarnessError::NodeExistsError
                    &&& old(self).root_exists
                    &&& *final(self) == *old(self)
                },
            },
    {
        if self.root_exists {
            return Err(HarnessError::NodeExistsError);
        }
        self.root_exists = true;
        self.root_version = 0;
        self.children = Vec::new();
        self.next_seq = 0;
        Ok(())
    }

    /// Guarded delete of the root: succeeds only while the version read
    /// earlier still matches, so two overlapping runs fail loudly instead
    /// of racing. Deleting the root removes its children with it.
    pub fn delete_root(&mut self, expected_version: u64) -> (r: Result<(), HarnessError>)
        ensures
            match r {
                Ok(()) => {
                    &&& old(self).root_exists
                    &&& old(self).root_version == expected_version
                    &&& !final(self).root_exists
                    &&& final(self).children@.len() == 0
                    &&& final(self).next_seq == old(self).next_seq
                    &&& final(self).wf()
                },
                Err(e) => {
                    &&& *final(self) == *old(self)
                    &&& (e == HarnessError::NoNodeError || e == HarnessError::VersionMismatchError)
                    &&& (e == HarnessError::NoNodeError <==> !old(self).root_exists)
                    &&& (e == HarnessError::VersionMismatchError <==> old(self).root_exists
                        && old(self).root_version != expected_version)
                },
            },
    {
        if !self.root_exists {
            return Err(HarnessError::NoNodeError);
        }
        if self.root_version != expected_version {
            return Err(HarnessError::VersionMismatchError);
        }
        self.root_exists = false;
        self.children = Vec::new();
        Ok(())
    }

    /// One create under the root. A sequential mode takes the
    /// service-assigned suffix (the sequencer's next value, which then
    /// advances by exactly one); any other mode takes the caller's. The
    /// create collides exactly when the suffix is already in use.
    pub fn create_child(&mut self, session: u64, mode: CreateMode, requested_suffix: u64) -> (r:
        Result<u64, HarnessError>)
        requires
            old(self).next_seq < u64::MAX,
        ensures
            old(self).wf() ==> final(self).wf(),
            match r {
                Ok(sfx) => {
                    &&& old(self).root_exists
                    &&& sfx == if mode.spec_is_sequential() {
                        old(self).next_seq
                    } else {
                        requested_suffix
                    }
                    &&& !has_suffix(old(self).children@, sfx)
                    &&& final(self).root_exists
                    &&& final(self).root_version == old(self).root_version
                    &&& final(self).next_seq == if mode.spec_is_sequential() {
                        old(self).next_seq + 1
                    } else {
                        old(self).next_seq as int
                    }
                    &&& final(self).children@ == old(self).children@.push(
                        (ChildEntry {
                            suffix: sfx,
                            owner: session,
                            ephemeral: mode.spec_is_ephemeral(),
                            sequential: mode.spec_is_sequential(),
                        }),
                    )
                },
                Err(e) => {
                    &&& *final(self) == *old(self)
                    &&& (e == HarnessError::NoNodeError || e == HarnessError::NodeExistsError)
                    &&& (e == HarnessError::NoNodeError <==> !old(self).root_exists)
                    &&& (e == HarnessError::NodeExistsError <==> old(self).root_exists
                        && has_suffix(
                        old(self).children@,
                        if mode.spec_is_sequential() {
                            old(self).next_seq
                        } else {
                            requested_suffix
                        },
                    ))
                },
            },
    {
        if !self.root_exists {
            return Err(HarnessError::NoNodeError);
        }
        let sfx: u64 = if mode.is_sequential() {
            self.next_seq
        } else {
            requested_suffix
        };
        let n: usize = self.children.len();
        let mut i: usize = 0;
        let mut found: bool = false;
        while i < n
            invariant
                *self == *old(self),
                n == self.children@.len(),
                0 <= i <= n,
                found <==> has_suffix(self.children@.take(i as int), sfx),
            decreases n - i,
        {
            if self.children[i].suffix == sfx {
                found = true;
                proof {
                    assert(self.children@.take(i as int + 1)[i as int].suffix == sfx);
                }
            } else {
                proof {
                    if !found {
                        assert forall|j: int|
                            0 <= j < i + 1 implies (#[trigger] self.children@.take(
                            i as int + 1,
                        )[j]).suffix != sfx by {
                            if j < i {
                                assert(self.children@.take(i as int + 1)[j] == self.children@.take(
                                    i as int,
                                )[j]);
                            }
                        }
                    } else {
                        let w = choose|w: int|
                            0 <= w < i && self.children@.take(i as int)[w].suffix == sfx;
                        assert(self.children@.take(i as int + 1)[w].suffix == sfx);
                    }
                }
            }
            i += 1;
        }
        proof {
            assert(self.children@.take(n as int) =~= self.children@);
        }
        if found {
            return Err(HarnessError::NodeExistsError);
        }
        let entry = ChildEntry {
            suffix: sfx,
            owner: session,
            ephemeral: mode.is_ephemeral(),
            sequential: mode.is_sequential(),
        };
        self.children.push(entry);
        if mode.is_sequential() {
            self.next_seq = self.next_seq + 1;
        }
        proof {
            let oldc = old(self).children@;
            let newc = self.children@;
            if old(self).wf() {
                assert forall|a: int, b: int|
                    0 <= a < b < newc.len() implies #[trigger] newc[a].suffix
                    != #[trigger] newc[b].suffix by {
                    if b == newc.len() - 1 {
                        assert(newc[a] == oldc[a]);
                        assert(!(oldc[a].suffix == sfx));
                    }
                }
                assert forall|a: int, b: int|
                    0 <= a < b < newc.len() && newc[a].sequential
                        && newc[b].sequential implies #[trigger] newc[a].suffix
                    < #[trigger] newc[b].suffix by {
                    if b == newc.len() - 1 {
                        assert(newc[a] == oldc[a]);
                    }
                }
                assert forall|a: int|
                    0 <= a < newc.len() && (#[trigger] newc[a]).sequential implies newc[a].suffix
                    < self.next_seq by {
                    if a < newc.len() - 1 {
                        assert(newc[a] == oldc[a]);
                    }
                }
            }
        }
        Ok(sfx)
    }

    /// `listChildren` reduced to a count: how many live children the root
    /// has.
    pub fn count_children(&self) -> (r: Result<u64, HarnessError>)
        requires
            self.children@.len() <= u64::MAX,
        ensures
            match r {
                Ok(n) => self.root_exists && n == self.children@.len(),
                Err(e) => !self.root_exists && e == HarnessError::NoNodeError,
            },
    {
        if !self.root_exists {
            return Err(HarnessError::NoNodeError);
        }
        Ok(self.children.len() as u64)
    }

    /// `listChildren`: the rendered names of all live children, in
    /// creation order.
    pub fn list_child_names(&self) -> (r: Result<Vec<Vec<u8>>, HarnessError>)
        ensures
            match r {
                Ok(names) => {
                    &&& self.root_exists
                    &&& names@.len() == self.children@.len()
                    &&& forall|i: int|
                        0 <= i < names@.len() ==> #[trigger] names@[i]@ == spec_node_name(
                            self.children@[i].suffix as nat,
                        )
                },
                Err(e) => !self.root_exists && e == HarnessError::NoNodeError,
            },
    {
        if !self.root_exists {
            return Err(HarnessError::NoNodeError);
        }
        let mut names: Vec<Vec<u8>> = Vec::new();
        let n: usize = self.children.len();
        let mut i: usize = 0;
        while i < n
            invariant
                n == self.children@.len(),
                0 <= i <= n,
                names@.len() == i,
                forall|j: int|
                    0 <= j < i ==> #[trigger] names@[j]@ == spec_node_name(
                        self.children@[j].suffix as nat,
                    ),
            decreases n - i,
        {
            let nm: Vec<u8> = node_name(self.children[i].suffix);
            names.push(nm);
            i += 1;
        }
        Ok(names)
    }

    /// Closing a session is irreversible: the service deletes every
    /// ephemeral child the session owns, as a side effect, keeping the
    /// others in order. Nothing else changes.
    pub fn close_session(&mut self, sid: u64)
        ensures
            final(self).root_exists == old(self).root_exists,
            final(self).root_version == old(self).root_version,
            final(self).next_seq == old(self).next_seq,
            final(self).children@ == remove_session(old(self).children@, sid),
            old(self).wf() ==> final(self).wf(),
    {
        let mut kept: Vec<ChildEntry> = Vec::new();
        let n: usize = self.children.len();
        let mut i: usize = 0;
        while i < n
            invariant
                *self == *old(self),
                n == self.children@.len(),
                0 <= i <= n,
                kept@ == remove_session(self.children@.take(i as int), sid),
            decreases n - i,
        {
            let e: ChildEntry = self.children[i];
            proof {
                let t1 = self.children@.take(i as int + 1);
                assert(t1.drop_last() =~= self.children@.take(i as int));
                assert(t1.last() == self.children@[i as int]);
            }
            if !(e.ephemeral && e.owner == sid) {
                kept.push(e);
            }
            i += 1;
        }
        proof {
            assert(self.children@.take(n as int) =~= self.children@);
        }
        self.children = kept;
        proof {
            if old(self).wf() {
                lemma_remove_session_preserves_wf(old(self).children@, sid, old(self).next_seq);
                lemma_close_session_excludes(old(self).children@, sid);
            }
        }
    }
}

/// Every survivor of a close sat in the original list.
pub proof fn lemma_remove_session_membership(cs: Seq<ChildEntry>, sid: u64)
    ensures
        forall|k: int|
            0 <= k < remove_session(cs, sid).len() ==> cs.contains(
                #[trigger] remove_session(cs, sid)[k],
            ),
    decreases cs.len(),
{
    if cs.len() > 0 {
        lemma_remove_session_membership(cs.drop_last(), sid);
        let rest = remove_session(cs.drop_last(), sid);
        assert forall|k: int| 0 <= k < remove_session(cs, sid).len() implies cs.contains(
            #[trigger] remove_session(cs, sid)[k],
        ) by {
            if k < rest.len() {
                assert(cs.drop_last().contains(rest[k]));
                let j = choose|j: int|
                    0 <= j < cs.drop_last().len() && cs.drop_last()[j] == rest[k];
                assert(cs[j] == rest[k]);
            } else {
                assert(remove_session(cs, sid)[k] == cs.last());
                assert(cs[cs.len() - 1] == cs.last());
            }
        }
    }
}

/// Closing a session keeps the child list well-formed: survivors keep
/// their order, so distinctness and sequential ordering carry over.
pub proof fn lemma_remove_session_preserves_wf(cs: Seq<ChildEntry>, sid: u64, next_seq: u64)
    requires
        children_wf(cs, next_seq),
    ensures
        children_wf(remove_session(cs, sid), next_seq),
    decreases cs.len(),
{
    if cs.len() > 0 {
        let prefix = cs.drop_last();
        assert(children_wf(prefix, next_seq)) by {
            assert forall|i: int, j: int|
                0 <= i < j < prefix.len() implies #[trigger] prefix[i].suffix
                != #[trigger] prefix[j].suffix by {
                assert(prefix[i] == cs[i] && prefix[j] == cs[j]);
            }
            assert forall|i: int, j: int|
                0 <= i < j < prefix.len() && prefix[i].sequential
                    && prefix[j].sequential implies #[trigger] prefix[i].suffix
                < #[trigger] prefix[j].suffix by {
                assert(prefix[i] == cs[i] && prefix[j] == cs[j]);
            }
            assert forall|i: int|
                0 <= i < prefix.len() && (#[trigger] prefix[i]).sequential implies prefix[i].suffix
                < next_seq by {
                assert(prefix[i] == cs[i]);
            }
        }
        lemma_remove_session_preserves_wf(prefix, sid, next_seq);
        lemma_remove_session_membership(prefix, sid);
        let rest = remove_session(prefix, sid);
        let last = cs.last();
        assert(last == cs[cs.len() - 1]);
        if surviving_close(last, sid) {
            let result = remove_session(cs, sid);
            assert(result == rest.push(last));
            assert forall|a: int, b: int|
                0 <= a < b < result.len() implies #[trigger] result[a].suffix
                != #[trigger] result[b].suffix by {
                if b == result.len() - 1 {
                    assert(result[a] == rest[a]);
                    assert(prefix.contains(rest[a]));
                    let j = choose|j: int| 0 <= j < prefix.len() && prefix[j] == rest[a];
                    assert(prefix[j] == cs[j]);
                    assert(cs[j].suffix != cs[cs.len() - 1].suffix);
                }
            }
            assert forall|a: int, b: int|
                0 <= a < b < result.len() && result[a].sequential
                    && result[b].sequential implies #[trigger] result[a].suffix
                < #[trigger] result[b].suffix by {
                if b == result.len() - 1 {
                    assert(result[a] == rest[a]);
                    assert(prefix.contains(rest[a]));
                    let j = choose|j: int| 0 <= j < prefix.len() && prefix[j] == rest[a];
                    assert(prefix[j] == cs[j]);
                }
            }
            assert forall|a: int|
                0 <= a < result.len() && (#[trigger] result[a]).sequential implies result[a].suffix
                < next_seq by {
                if a < result.len() - 1 {
                    assert(result[a] == rest[a]);
                }
            }
        }
    }
}

/// Lifetime coupling of ephemeral nodes: after a session closes, none of
/// its ephemeral children is left to count — exactly the `owned_count`
/// many of them are gone, and every survivor is persistent or belongs to
/// another session.
pub proof fn lemma_close_session_excludes(cs: Seq<ChildEntry>, sid: u64)
    ensures
        remove_session(cs, sid).len() + owned_count(cs, sid) == cs.len(),
        forall|k: int|
            0 <= k < remove_session(cs, sid).len() ==> surviving_close(
                #[trigger] remove_session(cs, sid)[k],
                sid,
            ),
    decreases cs.len(),
{
    if cs.len() > 0 {
        lemma_close_session_excludes(cs.drop_last(), sid);
    }
}

/// Sequential creates hand out strictly increasing suffixes: in any
/// well-formed child list, the service-assigned suffixes strictly
/// increase in creation order.
pub proof fn lemma_sequential_suffixes_increasing(cs: Seq<ChildEntry>, next_seq: u64)
    requires
        children_wf(cs, next_seq),
    ensures
        forall|i: int, j: int|
            0 <= i < j < cs.len() && cs[i].sequential && cs[j].sequential ==> #[trigger] cs[i].suffix
                < #[trigger] cs[j].suffix,
{
}

/// Path uniqueness: in any well-formed child list the rendered names are
/// pairwise distinct, because suffixes are and the rendering is
/// injective.
pub proof fn lemma_child_names_distinct(cs: Seq<ChildEntry>, next_seq: u64)
    requires
        children_wf(cs, next_seq),
    ensures
        forall|i: int, j: int|
            0 <= i < j < cs.len() ==> spec_node_name(#[trigger] cs[i].suffix as nat)
                != spec_node_name(#[trigger] cs[j].suffix as nat),
{
    assert forall|i: int, j: int|
        0 <= i < j < cs.len() implies spec_node_name(#[trigger] cs[i].suffix as nat)
        != spec_node_name(#[trigger] cs[j].suffix as nat) by {
        lemma_node_name_injective(cs[i].suffix as nat, cs[j].suffix as nat);
    }
}

} // verus!
