use vstd::prelude::*;

verus! {

/// `meshes` without any occurrence of `id`, in the same order.
pub open spec fn without(meshes: Seq<u64>, id: u64) -> Seq<u64> {
    meshes.filter(|m: u64| m != id)
}

/// The change version after a commit: one more than before when the scene changed since
/// the previous commit or any committed instanced mesh reports a change.
pub open spec fn version_after_commit(version: int, has_changed: bool, instanced_changed: Seq<bool>) -> int {
    if has_changed || exists|k: int| 0 <= k < instanced_changed.len() && instanced_changed[k] {
        version + 1
    } else {
        version
    }
}

proof fn lemma_without_absent(meshes: Seq<u64>, id: u64)
    requires
        !meshes.contains(id),
    ensures
        without(meshes, id) == meshes,
    decreases meshes.len(),
{
    reveal(Seq::filter);
    if meshes.len() > 0 {
        assert(!meshes.drop_last().contains(id)) by {
            if meshes.drop_last().contains(id) {
                let k = choose|k: int| 0 <= k < meshes.drop_last().len() && meshes.drop_last()[k] == id;
                assert(meshes[k] == id);
            }
        }
        lemma_without_absent(meshes.drop_last(), id);
        assert(meshes.last() != id) by {
            assert(meshes[meshes.len() - 1] == meshes.last());
        }
        assert(meshes.drop_last().push(meshes.last()) =~= meshes);
    }
}

/// Removing `id` from a list of meshes drops every occurrence of `id` and nothing else: the
/// result holds no `id`, holds every other mesh exactly as often as the list did, and is
/// shorter than the list by the number of occurrences of `id`.
pub proof fn lemma_without_drops_exactly_id(meshes: Seq<u64>, id: u64)
    ensures
        !without(meshes, id).contains(id),
        forall|m: u64|
            m != id ==> #[trigger] without(meshes, id).to_multiset().count(m)
                == meshes.to_multiset().count(m),
        without(meshes, id).len() + meshes.to_multiset().count(id) == meshes.len(),
    decreases meshes.len(),
{
    broadcast use vstd::seq_lib::group_to_multiset_ensures;

    reveal(Seq::filter);
    if meshes.len() == 0 {
        assert(!meshes.contains(id));
        assert(without(meshes, id) =~= meshes);
    } else {
        let init = meshes.drop_last();
        let x = meshes.last();
        lemma_without_drops_exactly_id(init, id);
        assert(init.push(x) =~= meshes);
        let rest = without(init, id);
        if x != id {
            assert(without(meshes, id) == rest.push(x));
            assert(!rest.push(x).contains(id)) by {
                if rest.push(x).contains(id) {
                    let k = choose|k: int| 0 <= k < rest.push(x).len() && rest.push(x)[k] == id;
                    assert(rest[k] == id);
                }
            }
        } else {
            assert(without(meshes, id) == rest);
        }
    }
}

/// Removal keeps the order of the meshes it keeps: removing `id` from nothing leaves nothing,
/// and removing it from a list with one more mesh `x` at its end gives the removal from the
/// list, followed by `x` unless `x` is `id`.
pub proof fn lemma_without_keeps_order(meshes: Seq<u64>, x: u64, id: u64)
    ensures
        without(Seq::<u64>::empty(), id) == Seq::<u64>::empty(),
        without(meshes.push(x), id) == (if x == id {
            without(meshes, id)
        } else {
            without(meshes, id).push(x)
        }),
{
    reveal(Seq::filter);
    assert(meshes.push(x).drop_last() =~= meshes);
}

/// Removing a mesh that was just added, and that the scene did not hold before, restores
/// the scene's pending meshes.
pub proof fn lemma_remove_undoes_add(meshes: Seq<u64>, id: u64)
    requires
        !meshes.contains(id),
    ensures
        without(meshes.push(id), id) == meshes,
{
    reveal(Seq::filter);
    assert(meshes.push(id).drop_last() =~= meshes);
    lemma_without_absent(meshes, id);
}

/// Committing a scene in which nothing changed keeps its change version.
pub proof fn lemma_unchanged_commit_keeps_version(version: int, instanced_changed: Seq<bool>)
    requires
        forall|k: int| 0 <= k < instanced_changed.len() ==> !instanced_changed[k],
    ensures
        version_after_commit(version, false, instanced_changed) == version,
{
}

/// The bookkeeping of a 3D scene: the meshes it holds, identified by number, in two lists
/// each: the pending list that additions and removals edit, and the committed list that
/// ray tracing uses, which `commit` replaces by the pending one. Tracks whether anything
/// changed since the last commit and counts the commits that saw a change.
pub struct Scene {
    static_meshes: Vec<u64>,
    pending_static_meshes: Vec<u64>,
    instanced_meshes: Vec<u64>,
    pending_instanced_meshes: Vec<u64>,
    has_changed: bool,
    change_version: u32,
}

impl Scene {
    /// Committed static meshes.
    pub closed spec fn static_mesh_ids(&self) -> Seq<u64> {
        self.static_meshes@
    }

    /// Static meshes as edited since the last commit.
    pub closed spec fn pending_static_mesh_ids(&self) -> Seq<u64> {
        self.pending_static_meshes@
    }

    /// Committed instanced meshes.
    pub closed spec fn instanced_mesh_ids(&self) -> Seq<u64> {
        self.instanced_meshes@
    }

    /// Instanced meshes as edited since the last commit.
    pub closed spec fn pending_instanced_mesh_ids(&self) -> Seq<u64> {
        self.pending_instanced_meshes@
    }

    /// Whether a mesh was added or removed since the last commit.
    pub closed spec fn changed(&self) -> bool {
        self.has_changed
    }

    /// Number of commits that saw a change.
    pub closed spec fn version(&self) -> nat {
        self.change_version as nat
    }

    /// An empty scene at version `0`.
    pub fn new() -> (scene: Self)
        ensures
            scene.static_mesh_ids() == Seq::<u64>::empty(),
            scene.pending_static_mesh_ids() == Seq::<u64>::empty(),
            scene.instanced_mesh_ids() == Seq::<u64>::empty(),
            scene.pending_instanced_mesh_ids() == Seq::<u64>::empty(),
            !scene.changed(),
            scene.version() == 0,
    {
        Self {
            static_meshes: Vec::new(),
            pending_static_meshes: Vec::new(),
            instanced_meshes: Vec::new(),
            pending_instanced_meshes: Vec::new(),
            has_changed: false,
            change_version: 0,
        }
    }

    /// Adds a static mesh to the pending list and marks the scene as changed.
    pub fn add_static_mesh(&mut self, id: u64)
        ensures
            final(self).pending_static_mesh_ids() == old(self).pending_static_mesh_ids().push(id),
            final(self).changed(),
            final(self).static_mesh_ids() == old(self).static_mesh_ids(),
            final(self).instanced_mesh_ids() == old(self).instanced_mesh_ids(),
            final(self).pending_instanced_mesh_ids() == old(self).pending_instanced_mesh_ids(),
            final(self).version() == old(self).version(),
    {
        self.pending_static_meshes.push(id);
        self.has_changed = true;
    }

    /// Removes every occurrence of a static mesh from the pending list and marks the scene as
    /// changed.
    pub fn remove_static_mesh(&mut self, id: u64)
        ensures
            final(self).pending_static_mesh_ids() == without(
                old(self).pending_static_mesh_ids(),
                id,
            ),
            !final(self).pending_static_mesh_ids().contains(id),
            forall|m: u64|
                m != id ==> #[trigger] final(self).pending_static_mesh_ids().to_multiset().count(m)
                    == old(self).pending_static_mesh_ids().to_multiset().count(m),
            final(self).pending_static_mesh_ids().len() + old(
                self,
            ).pending_static_mesh_ids().to_multiset().count(id) == old(
                self,
            ).pending_static_mesh_ids().len(),
            final(self).changed(),
            final(self).static_mesh_ids() == old(self).static_mesh_ids(),
            final(self).instanced_mesh_ids() == old(self).instanced_mesh_ids(),
            final(self).pending_instanced_mesh_ids() == old(self).pending_instanced_mesh_ids(),
            final(self).version() == old(self).version(),
    {
        let ghost pending = self.pending_static_meshes@;
        let mut kept: Vec<u64> = Vec::new();
        let mut k: usize = 0;
        while k < self.pending_static_meshes.len()
            invariant
                k <= pending.len(),
                self.pending_static_meshes@ == pending,
                kept@ == without(pending.take(k as int), id),
            decreases pending.len() - k,
        {
            let m = self.pending_static_meshes[k];
            proof {
                reveal(Seq::filter);
                assert(pending.take(k + 1).drop_last() =~= pending.take(k as int));
                assert(pending.take(k + 1).last() == m);
            }
            if m != id {
                kept.push(m);
            }
            k += 1;
        }
        assert(pending.take(pending.len() as int) =~= pending);
        proof {
            lemma_without_drops_exactly_id(pending, id);
        }
        self.pending_static_meshes = kept;
        self.has_changed = true;
    }

    /// Makes the pending lists the committed ones and clears the changed mark. The version
    /// goes up by one when the scene changed since the last commit or, otherwise, when one of
    /// the committed instanced meshes reports a change: `instanced_changed[k]` is whether the
    /// `k`-th committed instanced mesh changed.
    pub fn commit(&mut self, instanced_changed: &[bool])
        requires
            instanced_changed@.len() == old(self).instanced_mesh_ids().len(),
            version_after_commit(old(self).version() as int, old(self).changed(), instanced_changed@)
                <= u32::MAX,
        ensures
            final(self).static_mesh_ids() == old(self).pending_static_mesh_ids(),
            final(self).instanced_mesh_ids() == old(self).pending_instanced_mesh_ids(),
            final(self).pending_static_mesh_ids() == old(self).pending_static_mesh_ids(),
            final(self).pending_instanced_mesh_ids() == old(self).pending_instanced_mesh_ids(),
            !final(self).changed(),
            final(self).version() == version_after_commit(
                old(self).version() as int,
                old(self).changed(),
                instanced_changed@,
            ),
    {
        if !self.has_changed {
            let mut k: usize = 0;
            while k < instanced_changed.len()
                invariant_except_break
                    !self.has_changed,
                    forall|j: int| 0 <= j < k ==> !instanced_changed@[j],
                invariant
                    k <= instanced_changed@.len(),
                    self.static_meshes@ == old(self).static_mesh_ids(),
                    self.pending_static_meshes@ == old(self).pending_static_mesh_ids(),
                    self.instanced_meshes@ == old(self).instanced_mesh_ids(),
                    self.pending_instanced_meshes@ == old(self).pending_instanced_mesh_ids(),
                    self.change_version == old(self).version(),
                    !old(self).changed(),
                ensures
                    self.has_changed == exists|j: int|
                        0 <= j < instanced_changed@.len() && instanced_changed@[j],
                decreases instanced_changed@.len() - k,
            {
                if instanced_changed[k] {
                    self.has_changed = true;
                    break;
                }
                k += 1;
            }
        }
        if self.has_changed {
            self.change_version += 1;
        }
        self.static_meshes = self.pending_static_meshes.clone();
        self.instanced_meshes = self.pending_instanced_meshes.clone();
        assert(self.static_meshes@ =~= self.pending_static_meshes@);
        assert(self.instanced_meshes@ =~= self.pending_instanced_meshes@);
        self.has_changed = false;
    }

    /// The committed static meshes.
    pub fn static_meshes(&self) -> (ids: &[u64])
        ensures
            ids@ == self.static_mesh_ids(),
    {
        self.static_meshes.as_slice()
    }

    /// The committed instanced meshes.
    pub fn instanced_meshes(&self) -> (ids: &[u64])
        ensures
            ids@ == self.instanced_mesh_ids(),
    {
        self.instanced_meshes.as_slice()
    }

    /// Number of commits that saw a change.
    pub fn change_version(&self) -> (version: u32)
        ensures
            version == self.version(),
    {
        self.change_version
    }
}

} // verus!
