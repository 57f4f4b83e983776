//! Loading and saving the task collection against the slot store: the codec
//! supplies the document, the rotation engine makes the save reversible.

use vstd::prelude::*;

use crate::codec::{decode_tasks, enc_doc, encode_tasks, lemma_round_trip, p_doc};
use crate::storage::{save_content, saved, FileError, SlotStore, StoreView};
use crate::task::{tasks_view, tasks_wf, Task};

verus! {

/// Encodes the collection and saves it into the store, rotating the backup
/// generations first. Saving cannot fail, whether or not backups exist yet.
pub fn save_file(store: &mut SlotStore, tasks: &Vec<Task>)
    requires
        old(store).wf(),
    ensures
        final(store).wf(),
        final(store)@ == saved(old(store)@, enc_doc(tasks_view(tasks@))),
{
    let content = encode_tasks(tasks);
    save_content(store, content);
}

/// Decodes the store's primary slot and appends the stored tasks to
/// `tasks`. An empty primary slot (the first run) is not an error and adds
/// nothing; contents that do not decode are.
pub fn load_tasks(store: &SlotStore, tasks: &mut Vec<Task>) -> (r: Result<(), FileError>)
    ensures
        match store.primary {
            None => r is Ok && final(tasks)@ == old(tasks)@,
            Some(content) => {
                match p_doc(content@) {
                    Some(ds) => {
                        &&& r is Ok
                        &&& tasks_view(final(tasks)@) == tasks_view(old(tasks)@) + ds
                        &&& final(tasks)@.subrange(0, old(tasks)@.len() as int) == old(tasks)@
                        &&& tasks_wf(old(tasks)@) ==> tasks_wf(final(tasks)@)
                    },
                    None => r == Err::<(), FileError>(FileError::Deserialize) && final(tasks)@
                        == old(tasks)@,
                }
            },
        },
{
    let content = match &store.primary {
        None => {
            return Ok(());
        },
        Some(content) => content,
    };
    let mut loaded = match decode_tasks(content.as_str()) {
        Ok(ts) => ts,
        Err(_) => {
            return Err(FileError::Deserialize);
        },
    };
    let ghost loaded0 = loaded@;
    tasks.append(&mut loaded);
    proof {
        assert(tasks_view(tasks@) =~= tasks_view(old(tasks)@) + tasks_view(loaded0));
        assert(tasks@.subrange(0, old(tasks)@.len() as int) =~= old(tasks)@);
        if tasks_wf(old(tasks)@) {
            assert forall|i: int| 0 <= i < tasks@.len() implies (#[trigger] tasks@[i]).wf() by {
                if i >= old(tasks)@.len() {
                    assert(loaded0[i - old(tasks)@.len()].wf());
                }
            }
        }
    }
    Ok(())
}

/// Round trip of persistence: after a save of any well-formed collection,
/// the store's primary slot holds its encoding, and that encoding decodes
/// back to exactly the saved collection, field for field, optional fields
/// and multi-line notes included.
pub proof fn lemma_save_load_round_trip(v: StoreView, ts: Seq<Task>)
    requires
        tasks_wf(ts),
    ensures
        saved(v, enc_doc(tasks_view(ts))).primary == Some(enc_doc(tasks_view(ts))),
        p_doc(enc_doc(tasks_view(ts))) == Some(tasks_view(ts)),
{
    lemma_round_trip(ts);
}

} // verus!
