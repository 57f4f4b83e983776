//! The persistence engine's state machine: the primary slot plus backup
//! generations 0 (newest) through 10 (oldest), with rotation on save and the
//! mirror shift on rollback. The slot contents live in memory here; the I/O
//! layer mirrors the same transitions onto files by executing the slot moves
//! these functions compute.

use vstd::prelude::*;

verus! {

/// How many backup generations a rollback can walk through. Slot indices run
/// from 0 (newest) to `MAX_UNDOS` (oldest).
pub const MAX_UNDOS: usize = 10;

/// The errors persistence can report.
#[derive(Debug, PartialEq)]
pub enum FileError {
    /// The primary slot's contents do not decode as a task collection.
    Deserialize,
    /// Encoding failed (the encoder in this crate is total, so this is never
    /// produced here; the I/O layer keeps the variant for its reporting).
    Serialize,
    /// An I/O failure outside the model, reported by the I/O layer.
    Io(String),
    /// The data directory could not be created, reported by the I/O layer.
    CreateDir(String),
    /// Rollback was asked for but no backup generation 0 exists.
    BackupMissing,
}

/// One slot of the store: the primary file or a numbered backup generation.
#[derive(Debug, PartialEq, Eq, Clone, Copy, Structural)]
pub enum SlotId {
    Primary,
    Backup(usize),
}

/// The abstract state of the store: what each slot holds, if anything.
#[verifier::ext_equal]
pub struct StoreView {
    pub primary: Option<Seq<char>>,
    pub backups: Seq<Option<Seq<char>>>,
}

/// The contents of an optional string slot.
pub open spec fn opt_str_view(o: Option<String>) -> Option<Seq<char>> {
    match o {
        Some(s) => Some(s@),
        None => None,
    }
}

/// The primary slot and the `MAX_UNDOS + 1` backup slots, held in memory.
pub struct SlotStore {
    pub primary: Option<String>,
    pub backups: Vec<Option<String>>,
}

impl View for SlotStore {
    type V = StoreView;

    open spec fn view(&self) -> StoreView {
        StoreView {
            primary: opt_str_view(self.primary),
            backups: self.backups@.map_values(|o: Option<String>| opt_str_view(o)),
        }
    }
}

impl SlotStore {
    /// The store holds exactly the slots 0 through `MAX_UNDOS`.
    pub open spec fn wf(self) -> bool {
        self.backups@.len() == MAX_UNDOS + 1
    }

    /// A store with every slot empty: the state before anything was saved.
    pub fn empty() -> (r: SlotStore)
        ensures
            r.wf(),
            r@ == empty_store_view(),
    {
        let mut backups: Vec<Option<String>> = Vec::new();
        let mut i: usize = 0;
        while i < MAX_UNDOS + 1
            invariant
                backups@.len() == i,
                i <= MAX_UNDOS + 1,
                forall|j: int| 0 <= j < i ==> backups@[j] is None,
            decreases MAX_UNDOS + 1 - i,
        {
            backups.push(None);
            i += 1;
        }
        let r = SlotStore { primary: None, backups };
        proof {
            assert(r@.backups =~= empty_store_view().backups);
            assert(r@ =~= empty_store_view());
        }
        r
    }
}

/// The state with every slot empty.
pub open spec fn empty_store_view() -> StoreView {
    StoreView { primary: None, backups: Seq::new((MAX_UNDOS + 1) as nat, |j: int| None) }
}

/// The state after the backup rotation that precedes a save: each backup
/// generation that exists moves one slot older (evicting the oldest), the
/// primary contents become generation 0, and the primary slot is left free.
/// A generation that does not exist is simply not moved, so slot `MAX_UNDOS`
/// keeps its contents when slot `MAX_UNDOS - 1` is empty.
pub open spec fn rotated(v: StoreView) -> StoreView {
    StoreView {
        primary: None,
        backups: Seq::new(
            (MAX_UNDOS + 1) as nat,
            |j: int|
                if j == 0 {
                    v.primary
                } else if j < MAX_UNDOS {
                    v.backups[j - 1]
                } else if v.backups[MAX_UNDOS - 1] is Some {
                    v.backups[MAX_UNDOS - 1]
                } else {
                    v.backups[MAX_UNDOS as int]
                },
        ),
    }
}

/// The state after saving `content`: the rotation above, then the new
/// contents in the primary slot.
pub open spec fn saved(v: StoreView, content: Seq<char>) -> StoreView {
    StoreView { primary: Some(content), ..rotated(v) }
}

/// A rollback is possible exactly when backup generation 0 exists.
pub open spec fn can_roll_back(v: StoreView) -> bool {
    v.backups[0] is Some
}

/// The state after a rollback: generation 0 is restored over the primary
/// slot and every remaining generation moves one slot newer.
pub open spec fn rolled_back(v: StoreView) -> StoreView {
    StoreView {
        primary: v.backups[0],
        backups: Seq::new(
            (MAX_UNDOS + 1) as nat,
            |j: int|
                if j < MAX_UNDOS {
                    v.backups[j + 1]
                } else {
                    None
                },
        ),
    }
}

/// Rotates the backup generations and moves the primary contents into
/// generation 0, leaving the primary slot free for the coming write.
fn rotate(store: &mut SlotStore)
    requires
        old(store).wf(),
    ensures
        final(store).wf(),
        final(store)@ == rotated(old(store)@),
{
    let mut i: usize = MAX_UNDOS;
    while i > 0
        invariant
            store.wf(),
            i <= MAX_UNDOS,
            store.primary == old(store).primary,
            forall|j: int| 0 <= j < i ==> store.backups@[j] == old(store).backups@[j],
            i < MAX_UNDOS ==> store.backups@[i as int] is None,
            forall|j: int|
                i < j < MAX_UNDOS ==> store.backups@[j] == old(store).backups@[j - 1],
            store.backups@[MAX_UNDOS as int] == (if i < MAX_UNDOS {
                if old(store).backups@[MAX_UNDOS - 1] is Some {
                    old(store).backups@[MAX_UNDOS - 1]
                } else {
                    old(store).backups@[MAX_UNDOS as int]
                }
            } else {
                old(store).backups@[MAX_UNDOS as int]
            }),
        decreases i,
    {
        i -= 1;
        if store.backups[i].is_some() {
            let moved = store.backups[i].take();
            store.backups[i + 1] = moved;
        }
    }
    let newest = store.primary.take();
    store.backups[0] = newest;
    proof {
        assert forall|j: int| 0 <= j <= MAX_UNDOS implies store@.backups[j] == rotated(
            old(store)@,
        ).backups[j] by {
            assert(store@.backups[j] == opt_str_view(store.backups@[j]));
        }
        assert(store@.backups =~= rotated(old(store)@).backups);
        assert(store@ =~= rotated(old(store)@));
    }
}

/// Saves `content` into the store: rotates the backups, then writes the new
/// contents to the primary slot. This never fails — in particular, saving
/// when no backups exist yet simply rotates nothing.
pub fn save_content(store: &mut SlotStore, content: String)
    requires
        old(store).wf(),
    ensures
        final(store).wf(),
        final(store)@ == saved(old(store)@, content@),
{
    rotate(store);
    store.primary = Some(content);
    proof {
        assert(store@ =~= saved(old(store)@, content@));
    }
}

/// Restores the newest backup over the primary slot and shifts every older
/// generation one slot newer; fails (leaving the store untouched) when no
/// backup generation 0 exists.
pub fn roll_back_file(store: &mut SlotStore) -> (r: Result<(), FileError>)
    requires
        old(store).wf(),
    ensures
        final(store).wf(),
        if can_roll_back(old(store)@) {
            r is Ok && final(store)@ == rolled_back(old(store)@)
        } else {
            r == Err::<(), FileError>(FileError::BackupMissing) && final(store)@ == old(store)@
        },
{
    if store.backups[0].is_none() {
        return Err(FileError::BackupMissing);
    }
    let restored = store.backups[0].take();
    store.primary = restored;
    let mut i: usize = 1;
    while i <= MAX_UNDOS
        invariant
            store.wf(),
            1 <= i <= MAX_UNDOS + 1,
            store.primary == old(store).backups@[0],
            forall|j: int|
                0 <= j < i - 1 ==> store.backups@[j] == old(store).backups@[j + 1],
            store.backups@[i - 1] is None,
            forall|j: int|
                i <= j <= MAX_UNDOS ==> store.backups@[j] == old(store).backups@[j],
        decreases MAX_UNDOS + 1 - i,
    {
        if store.backups[i].is_some() {
            let moved = store.backups[i].take();
            store.backups[i - 1] = moved;
        }
        i += 1;
    }
    proof {
        assert forall|j: int| 0 <= j <= MAX_UNDOS implies store@.backups[j] == rolled_back(
            old(store)@,
        ).backups[j] by {
            assert(store@.backups[j] == opt_str_view(store.backups@[j]));
        }
        assert(store@.backups =~= rolled_back(old(store)@).backups);
        assert(store@ =~= rolled_back(old(store)@));
    }
    Ok(())
}

// ---- Slot moves for the I/O layer ------------------------------------------

/// The renames of the save rotation for backup generations `i` down to 0:
/// each generation that exists moves one slot older, oldest first.
pub open spec fn rotation_moves_desc(present: Seq<bool>, i: int) -> Seq<(SlotId, SlotId)>
    decreases i + 1,
{
    if i < 0 {
        Seq::empty()
    } else {
        (if present[i] {
            seq![(SlotId::Backup(i as usize), SlotId::Backup((i + 1) as usize))]
        } else {
            Seq::empty()
        }) + rotation_moves_desc(present, i - 1)
    }
}

/// Every rename of the save rotation, in execution order: the shifts of the
/// existing generations, then the primary contents into generation 0 when a
/// primary exists.
pub open spec fn rotation_moves_spec(primary_present: bool, present: Seq<bool>) -> Seq<
    (SlotId, SlotId),
> {
    rotation_moves_desc(present, MAX_UNDOS - 1) + (if primary_present {
        seq![(SlotId::Primary, SlotId::Backup(0))]
    } else {
        Seq::empty()
    })
}

/// Computes the renames the I/O layer must perform, in order, to rotate the
/// on-disk backups before a save. `present[i]` says whether backup
/// generation `i` exists on disk.
pub fn rotation_moves(primary_present: bool, present: &Vec<bool>) -> (r: Vec<(SlotId, SlotId)>)
    requires
        present@.len() == MAX_UNDOS + 1,
    ensures
        r@ == rotation_moves_spec(primary_present, present@),
{
    let mut r: Vec<(SlotId, SlotId)> = Vec::new();
    let mut i: usize = MAX_UNDOS;
    while i > 0
        invariant
            i <= MAX_UNDOS,
            present@.len() == MAX_UNDOS + 1,
            r@ + rotation_moves_desc(present@, i - 1) =~= rotation_moves_desc(
                present@,
                MAX_UNDOS - 1,
            ),
        decreases i,
    {
        i -= 1;
        if present[i] {
            r.push((SlotId::Backup(i), SlotId::Backup(i + 1)));
        }
        proof {
            assert(r@ + rotation_moves_desc(present@, i - 1) =~= rotation_moves_desc(
                present@,
                MAX_UNDOS - 1,
            ));
        }
    }
    proof {
        assert(r@ =~= rotation_moves_desc(present@, MAX_UNDOS - 1));
    }
    if primary_present {
        r.push((SlotId::Primary, SlotId::Backup(0)));
    }
    proof {
        assert(r@ =~= rotation_moves_spec(primary_present, present@));
    }
    r
}

/// The renames of the rollback shift for backup generations `i` up to
/// `MAX_UNDOS`: each generation that exists moves one slot newer, newest
/// first.
pub open spec fn rollback_moves_asc(present: Seq<bool>, i: int) -> Seq<(SlotId, SlotId)>
    decreases MAX_UNDOS + 1 - i,
{
    if i > MAX_UNDOS {
        Seq::empty()
    } else {
        (if present[i] {
            seq![(SlotId::Backup(i as usize), SlotId::Backup((i - 1) as usize))]
        } else {
            Seq::empty()
        }) + rollback_moves_asc(present, i + 1)
    }
}

/// Every rename of a rollback, in execution order: generation 0 onto the
/// primary slot, then each older generation one slot newer.
pub open spec fn rollback_moves_spec(present: Seq<bool>) -> Seq<(SlotId, SlotId)> {
    seq![(SlotId::Backup(0), SlotId::Primary)] + rollback_moves_asc(present, 1)
}

/// Computes the renames the I/O layer must perform, in order, to roll the
/// on-disk state back by one save; fails when backup generation 0 is absent.
pub fn rollback_moves(present: &Vec<bool>) -> (r: Result<Vec<(SlotId, SlotId)>, FileError>)
    requires
        present@.len() == MAX_UNDOS + 1,
    ensures
        if present@[0] {
            r matches Ok(moves) && moves@ == rollback_moves_spec(present@)
        } else {
            r == Err::<Vec<(SlotId, SlotId)>, FileError>(FileError::BackupMissing)
        },
{
    if !present[0] {
        return Err(FileError::BackupMissing);
    }
    let mut r: Vec<(SlotId, SlotId)> = Vec::new();
    r.push((SlotId::Backup(0), SlotId::Primary));
    let mut i: usize = 1;
    while i <= MAX_UNDOS
        invariant
            1 <= i <= MAX_UNDOS + 1,
            present@.len() == MAX_UNDOS + 1,
            r@ + rollback_moves_asc(present@, i as int) =~= rollback_moves_spec(present@),
        decreases MAX_UNDOS + 1 - i,
    {
        if present[i] {
            r.push((SlotId::Backup(i), SlotId::Backup(i - 1)));
        }
        proof {
            assert(r@ + rollback_moves_asc(present@, i + 1) =~= rollback_moves_spec(present@));
        }
        i += 1;
    }
    proof {
        assert(r@ =~= rollback_moves_spec(present@));
    }
    Ok(r)
}

// ---- Laws of the rotation ---------------------------------------------------

/// The very first save: with no primary and no backups yet, nothing rotates,
/// the contents land in the primary slot, and every backup stays absent.
pub proof fn lemma_first_save(c: Seq<char>)
    ensures
        saved(empty_store_view(), c).primary == Some(c),
        forall|j: int|
            0 <= j <= MAX_UNDOS ==> #[trigger] saved(empty_store_view(), c).backups[j] is None,
{
    let v = saved(empty_store_view(), c);
    assert forall|j: int| 0 <= j <= MAX_UNDOS implies #[trigger] v.backups[j] is None by {
        assert(empty_store_view().backups[j] is None);
        if 1 <= j {
            assert(empty_store_view().backups[j - 1] is None);
        }
    }
}

/// Three consecutive saves of `c1`, `c2`, `c3` onto a fresh store, in that
/// order: one rollback restores `c2`, a second restores `c1`, and a third is
/// impossible — no backup is left.
pub proof fn lemma_backup_rotation_undo(c1: Seq<char>, c2: Seq<char>, c3: Seq<char>)
    ensures
        ({
            let v3 = saved(saved(saved(empty_store_view(), c1), c2), c3);
            &&& can_roll_back(v3)
            &&& rolled_back(v3).primary == Some(c2)
            &&& can_roll_back(rolled_back(v3))
            &&& rolled_back(rolled_back(v3)).primary == Some(c1)
            &&& !can_roll_back(rolled_back(rolled_back(v3)))
        }),
{
    let v0 = empty_store_view();
    let v1 = saved(v0, c1);
    let v2 = saved(v1, c2);
    let v3 = saved(v2, c3);
    lemma_first_save(c1);
    assert(v2.backups[0] == Some(c1));
    assert(v2.backups[1] is None) by {
        assert(v1.backups[0] is None);
    }
    assert(v3.backups[0] == Some(c2));
    assert(v3.backups[1] == Some(c1));
    assert(v3.backups[2] is None) by {
        assert(v2.backups[1] is None);
    }
    let u1 = rolled_back(v3);
    assert(u1.primary == Some(c2));
    assert(u1.backups[0] == Some(c1));
    assert(u1.backups[1] is None);
    let u2 = rolled_back(u1);
    assert(u2.primary == Some(c1));
    assert(u2.backups[0] is None);
}


// ---- Executing the moves is the model transition ----------------------------

/// What a slot holds.
pub open spec fn slot_get(v: StoreView, s: SlotId) -> Option<Seq<char>> {
    match s {
        SlotId::Primary => v.primary,
        SlotId::Backup(i) => v.backups[i as int],
    }
}

/// The store with one slot replaced.
pub open spec fn slot_set(v: StoreView, s: SlotId, c: Option<Seq<char>>) -> StoreView {
    match s {
        SlotId::Primary => StoreView { primary: c, ..v },
        SlotId::Backup(i) => StoreView { backups: v.backups.update(i as int, c), ..v },
    }
}

/// What one rename does: the source slot's contents move to the destination
/// slot, leaving the source empty.
pub open spec fn apply_move(v: StoreView, m: (SlotId, SlotId)) -> StoreView {
    slot_set(slot_set(v, m.1, slot_get(v, m.0)), m.0, None)
}

/// The renames of `ms`, executed in order.
pub open spec fn apply_moves(v: StoreView, ms: Seq<(SlotId, SlotId)>) -> StoreView
    decreases ms.len(),
{
    if ms.len() == 0 {
        v
    } else {
        apply_moves(apply_move(v, ms[0]), ms.drop_first())
    }
}

/// `present` records which backup slots of `v` hold something.
pub open spec fn presence_of(v: StoreView, present: Seq<bool>) -> bool {
    &&& v.backups.len() == MAX_UNDOS + 1
    &&& present.len() == MAX_UNDOS + 1
    &&& forall|j: int| 0 <= j <= MAX_UNDOS ==> (present[j] == (#[trigger] v.backups[j] is Some))
}

#[verifier::rlimit(100)]
proof fn lemma_rotation_desc_applies(v: StoreView, present: Seq<bool>, i: int)
    requires
        v.backups.len() == MAX_UNDOS + 1,
        present.len() == MAX_UNDOS + 1,
        -1 <= i <= MAX_UNDOS - 1,
        forall|j: int| 0 <= j <= i ==> (present[j] == (#[trigger] v.backups[j] is Some)),
    ensures
        ({
            let r = apply_moves(v, rotation_moves_desc(present, i));
            &&& r.primary == v.primary
            &&& r.backups.len() == MAX_UNDOS + 1
            &&& forall|j: int| i + 1 < j <= MAX_UNDOS ==> r.backups[j] == v.backups[j]
            &&& i >= 0 ==> r.backups[i + 1] == (if present[i] {
                v.backups[i]
            } else {
                v.backups[i + 1]
            })
            &&& forall|j: int| 1 <= j <= i ==> r.backups[j] == v.backups[j - 1]
            &&& i >= 0 ==> r.backups[0] is None
        }),
    decreases i + 1,
{
    if i >= 0 {
        let ms = rotation_moves_desc(present, i);
        if present[i] {
            let m = (SlotId::Backup(i as usize), SlotId::Backup((i + 1) as usize));
            assert(ms == seq![m] + rotation_moves_desc(present, i - 1));
            assert(ms[0] == m);
            assert(ms.drop_first() =~= rotation_moves_desc(present, i - 1));
            let v1 = apply_move(v, m);
            assert(v1.backups[i + 1] == v.backups[i]);
            assert(v1.backups[i as int] is None);
            assert(forall|j: int|
                0 <= j <= MAX_UNDOS && j != i && j != i + 1 ==> v1.backups[j] == v.backups[j]);
            lemma_rotation_desc_applies(v1, present, i - 1);
        } else {
            assert(ms =~= rotation_moves_desc(present, i - 1));
            assert(v.backups[i as int] is None);
            lemma_rotation_desc_applies(v, present, i - 1);
        }
    }
}

proof fn lemma_apply_moves_append(v: StoreView, a: Seq<(SlotId, SlotId)>, b: Seq<(SlotId, SlotId)>)
    ensures
        apply_moves(v, a + b) == apply_moves(apply_moves(v, a), b),
    decreases a.len(),
{
    if a.len() == 0 {
        assert(a + b =~= b);
    } else {
        assert((a + b)[0] == a[0]);
        assert((a + b).drop_first() =~= a.drop_first() + b);
        lemma_apply_moves_append(apply_move(v, a[0]), a.drop_first(), b);
    }
}

/// Executing the renames of [`rotation_moves`] on the store they were
/// computed for yields exactly the rotated store.
pub proof fn lemma_rotation_moves_apply(v: StoreView, present: Seq<bool>)
    requires
        presence_of(v, present),
    ensures
        apply_moves(v, rotation_moves_spec(v.primary is Some, present)) == rotated(v),
{
    let desc = rotation_moves_desc(present, MAX_UNDOS - 1);
    lemma_rotation_desc_applies(v, present, MAX_UNDOS - 1);
    let r1 = apply_moves(v, desc);
    lemma_apply_moves_append(v, desc, if v.primary is Some {
        seq![(SlotId::Primary, SlotId::Backup(0))]
    } else {
        Seq::empty()
    });
    if v.primary is Some {
        let m = (SlotId::Primary, SlotId::Backup(0));
        let v2 = apply_move(r1, m);
        assert(seq![m].drop_first() =~= Seq::<(SlotId, SlotId)>::empty());
        assert(apply_moves(v2, Seq::<(SlotId, SlotId)>::empty()) == v2);
        assert(apply_moves(r1, seq![m]) == v2);
        assert(v2.backups =~= rotated(v).backups);
        assert(v2 =~= rotated(v));
    } else {
        assert(apply_moves(r1, Seq::<(SlotId, SlotId)>::empty()) == r1);
        assert(r1.backups =~= rotated(v).backups);
        assert(r1 =~= rotated(v));
    }
}

#[verifier::rlimit(100)]
proof fn lemma_rollback_asc_applies(v: StoreView, present: Seq<bool>, i: int)
    requires
        v.backups.len() == MAX_UNDOS + 1,
        present.len() == MAX_UNDOS + 1,
        1 <= i <= MAX_UNDOS + 1,
        v.backups[i - 1] is None,
        forall|j: int| i <= j <= MAX_UNDOS ==> (present[j] == (#[trigger] v.backups[j] is Some)),
    ensures
        ({
            let r = apply_moves(v, rollback_moves_asc(present, i));
            &&& r.primary == v.primary
            &&& r.backups.len() == MAX_UNDOS + 1
            &&& forall|j: int| 0 <= j < i - 1 ==> r.backups[j] == v.backups[j]
            &&& forall|j: int| i - 1 <= j < MAX_UNDOS ==> r.backups[j] == v.backups[j + 1]
            &&& r.backups[MAX_UNDOS as int] is None
        }),
    decreases MAX_UNDOS + 1 - i,
{
    let ms = rollback_moves_asc(present, i);
    if i > MAX_UNDOS {
    } else if present[i] {
        let m = (SlotId::Backup(i as usize), SlotId::Backup((i - 1) as usize));
        assert(ms == seq![m] + rollback_moves_asc(present, i + 1));
        assert(ms[0] == m);
        assert(ms.drop_first() =~= rollback_moves_asc(present, i + 1));
        let v1 = apply_move(v, m);
        assert(v1.backups[i - 1] == v.backups[i as int]);
        assert(v1.backups[i as int] is None);
        assert(forall|j: int|
            0 <= j <= MAX_UNDOS && j != i && j != i - 1 ==> v1.backups[j] == v.backups[j]);
        lemma_rollback_asc_applies(v1, present, i + 1);
    } else {
        assert(ms =~= rollback_moves_asc(present, i + 1));
        assert(v.backups[i as int] is None);
        lemma_rollback_asc_applies(v, present, i + 1);
    }
}

/// Executing the renames of [`rollback_moves`] on the store they were
/// computed for yields exactly the rolled-back store.
pub proof fn lemma_rollback_moves_apply(v: StoreView, present: Seq<bool>)
    requires
        presence_of(v, present),
        present[0],
    ensures
        apply_moves(v, rollback_moves_spec(present)) == rolled_back(v),
{
    let m0 = (SlotId::Backup(0), SlotId::Primary);
    let asc = rollback_moves_asc(present, 1);
    lemma_apply_moves_append(v, seq![m0], asc);
    assert(rollback_moves_spec(present) == seq![m0] + asc);
    let v1 = apply_move(v, m0);
    assert(seq![m0].drop_first() =~= Seq::<(SlotId, SlotId)>::empty());
    assert(apply_moves(v1, Seq::<(SlotId, SlotId)>::empty()) == v1);
    assert(apply_moves(v, seq![m0]) == v1);
    assert(v1.primary == v.backups[0]);
    assert(v1.backups[0] is None);
    lemma_rollback_asc_applies(v1, present, 1);
    let r = apply_moves(v1, asc);
    assert(r.backups =~= rolled_back(v).backups);
    assert(r =~= rolled_back(v));
}

} // verus!
