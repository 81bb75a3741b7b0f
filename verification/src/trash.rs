//! The trash: sessions that were deleted and can still be restored.
//!
//! The manifest lists what is in the trash, oldest first, and is the only
//! record of it. Moving files is the caller's business; what enters and
//! leaves the manifest is decided here.

use vstd::prelude::*;
use vstd::string::StringExecFns;
use crate::seqs::{
    first_index, lemma_first_index, lemma_first_index_is, lemma_first_index_none,
    lemma_select_step, select, views,
};
use crate::text::{decimal, str_eq, to_decimal};
use crate::types::{TrashItem, TrashItemView, TrashManifest};

verus! {

/// How many seconds a day has.
pub const SECONDS_PER_DAY: i64 = 86400;

/// Why an item could not be restored.
#[derive(Clone, Copy, Debug, PartialEq, Eq)]
pub enum TrashError {
    /// The manifest lists no item of that name.
    NoSuchItem,
    /// The manifest lists the item, but its directory is gone.
    MissingDirectory,
}

/// The items of the given name.
pub open spec fn named(dir_name: Seq<char>) -> spec_fn(TrashItemView) -> bool {
    |item: TrashItemView| item.dir_name == dir_name
}

/// Where the first item of the given name stands.
pub open spec fn item_index(items: Seq<TrashItemView>, dir_name: Seq<char>) -> Option<int> {
    first_index(items, named(dir_name))
}

pub open spec fn other_than(dir_name: Seq<char>) -> spec_fn(TrashItemView) -> Option<
    TrashItemView,
> {
    |item: TrashItemView|
        if item.dir_name != dir_name {
            Some(item)
        } else {
            None
        }
}

/// The items without those of the given name.
pub open spec fn without_item(items: Seq<TrashItemView>, dir_name: Seq<char>) -> Seq<
    TrashItemView,
> {
    select(items, other_than(dir_name))
}

/// The moment before which a deleted item has expired.
pub open spec fn cutoff(now: i64, retention_days: i64) -> int {
    now - retention_days * SECONDS_PER_DAY
}

pub open spec fn deleted_before(limit: int) -> spec_fn(TrashItemView) -> Option<TrashItemView> {
    |item: TrashItemView|
        if item.deleted_at < limit {
            Some(item)
        } else {
            None
        }
}

pub open spec fn deleted_since(limit: int) -> spec_fn(TrashItemView) -> Option<TrashItemView> {
    |item: TrashItemView|
        if item.deleted_at >= limit {
            Some(item)
        } else {
            None
        }
}

/// The items that were deleted before `limit`.
pub open spec fn expired(items: Seq<TrashItemView>, limit: int) -> Seq<TrashItemView> {
    select(items, deleted_before(limit))
}

/// The items that were deleted at `limit` or later.
pub open spec fn unexpired(items: Seq<TrashItemView>, limit: int) -> Seq<TrashItemView> {
    select(items, deleted_since(limit))
}

/// The name of the trash directory of a session deleted at `now`.
pub open spec fn trash_dir_name(session_id: Seq<char>, now: u64) -> Seq<char> {
    session_id + seq!['_'] + decimal(now as nat)
}

/// The deletion time that the manifest records: `now`, or the latest moment
/// it can hold.
pub open spec fn recorded_time(now: u64) -> i64 {
    if now <= i64::MAX as u64 {
        now as i64
    } else {
        i64::MAX
    }
}

/// The manifest entry of a session deleted at `now`.
pub open spec fn trashed(
    session_id: Seq<char>,
    project_name: Seq<char>,
    original_file: Seq<char>,
    original_file_history: Option<Seq<char>>,
    now: u64,
) -> TrashItemView {
    TrashItemView {
        session_id,
        project_name,
        deleted_at: recorded_time(now),
        dir_name: trash_dir_name(session_id, now),
        original_file,
        original_file_history,
    }
}

/// The manifest entry of a session deleted at `now`, in seconds since the
/// epoch.
pub fn new_trash_item(
    session_id: String,
    project_name: String,
    original_file: String,
    original_file_history: Option<String>,
    now: u64,
) -> (item: TrashItem)
    ensures
        item@ == trashed(
            session_id@,
            project_name@,
            original_file@,
            crate::seqs::opt_text(original_file_history),
            now,
        ),
{
    let mut dir_name = session_id.clone();
    dir_name.append("_");
    dir_name.append(to_decimal(now).as_str());
    proof {
        reveal_strlit("_");
        assert("_"@ =~= seq!['_']);
    }
    let deleted_at: i64 = if now <= 9223372036854775807u64 {
        now as i64
    } else {
        i64::MAX
    };
    TrashItem { session_id, project_name, deleted_at, dir_name, original_file, original_file_history }
}

/// A copy of a manifest entry.
pub fn clone_trash_item(item: &TrashItem) -> (r: TrashItem)
    ensures
        r@ == item@,
{
    TrashItem {
        session_id: item.session_id.clone(),
        project_name: item.project_name.clone(),
        deleted_at: item.deleted_at,
        dir_name: item.dir_name.clone(),
        original_file: item.original_file.clone(),
        original_file_history: crate::types::clone_opt(&item.original_file_history),
    }
}

impl TrashManifest {
    /// A manifest of an empty trash.
    pub fn new() -> (manifest: TrashManifest)
        ensures
            manifest@ == Seq::<TrashItemView>::empty(),
    {
        let manifest = TrashManifest { items: Vec::new() };
        proof {
            assert(manifest@ =~= Seq::<TrashItemView>::empty());
        }
        manifest
    }

    /// Where the first item of the given name stands.
    pub fn find(&self, dir_name: &str) -> (r: Option<usize>)
        ensures
            match r {
                Some(i) => item_index(self@, dir_name@) == Some(i as int) && i < self.items.len(),
                None => item_index(self@, dir_name@) is None,
            },
    {
        let ghost items = self@;
        let mut k: usize = 0;
        while k < self.items.len()
            invariant
                k <= self.items.len(),
                items == views(self.items@),
                forall|j: int| 0 <= j < k ==> !named(dir_name@)(#[trigger] items[j]),
            decreases self.items.len() - k,
        {
            if str_eq(self.items[k].dir_name.as_str(), dir_name) {
                proof {
                    assert(named(dir_name@)(items[k as int]));
                    lemma_first_index_is(items, named(dir_name@), k as int);
                }
                return Some(k);
            }
            k += 1;
        }
        proof {
            lemma_first_index_none(items, named(dir_name@));
        }
        None
    }

    /// Lists one more item, after those that are there.
    pub fn add(&mut self, item: TrashItem)
        ensures
            final(self)@ == old(self)@.push(item@),
    {
        proof {
            assert(views(self.items@.push(item)) =~= views(self.items@).push(item@));
        }
        self.items.push(item);
    }

    /// Takes every item of the given name off the manifest and hands back
    /// the first of them.
    pub fn remove(&mut self, dir_name: &str) -> (r: Option<TrashItem>)
        ensures
            final(self)@ == without_item(old(self)@, dir_name@),
            match r {
                Some(item) => item_index(old(self)@, dir_name@) is Some && item@ == old(self)@[
                    item_index(old(self)@, dir_name@)->0
                ],
                None => item_index(old(self)@, dir_name@) is None,
            },
    {
        let ghost before = self@;
        let ghost keep = other_than(dir_name@);
        let mut items: Vec<TrashItem> = Vec::new();
        std::mem::swap(&mut items, &mut self.items);
        let mut kept: Vec<TrashItem> = Vec::new();
        let mut found: Option<TrashItem> = None;
        let mut k: usize = 0;
        let n = items.len();
        proof {
            assert(before.take(0) =~= Seq::<TrashItemView>::empty());
            assert(views(kept@) =~= select(before.take(0), keep));
            assert(views(items@).skip(0) =~= before);
        }
        while items.len() > 0
            invariant
                keep == other_than(dir_name@),
                k + items.len() == n,
                n == before.len(),
                views(items@) == before.skip(k as int),
                views(kept@) == select(before.take(k as int), keep),
                forall|j: int| 0 <= j < k ==> (named(dir_name@)(#[trigger] before[j]) ==> found
                    is Some),
                match found {
                    Some(item) => exists|i: int|
                        0 <= i < k && named(dir_name@)(before[i]) && item@ == before[i] && forall|
                            j: int,
                        | 0 <= j < i ==> !named(dir_name@)(#[trigger] before[j]),
                    None => forall|j: int| 0 <= j < k ==> !named(dir_name@)(#[trigger] before[j]),
                },
            decreases items.len(),
        {
            let ghost rest = items@;
            let item = items.remove(0);
            proof {
                lemma_select_step(before, keep, k as int);
                assert(before.skip(k as int)[0] == before[k as int]);
                assert(views(rest)[0] == rest[0]@);
                assert(item@ == before[k as int]);
                assert forall|j: int| 0 <= j < items@.len() implies views(items@)[j] == before.skip(
                    k + 1,
                )[j] by {
                    assert(items@[j] == rest[j + 1]);
                    assert(views(rest)[j + 1] == rest[j + 1]@);
                    assert(before.skip(k as int)[j + 1] == before[k + j + 1]);
                }
                assert(views(items@) =~= before.skip(k + 1));
            }
            if str_eq(item.dir_name.as_str(), dir_name) {
                if found.is_none() {
                    found = Some(item);
                }
            } else {
                proof {
                    assert(views(kept@.push(item)) =~= views(kept@).push(item@));
                }
                kept.push(item);
            }
            k = k + 1;
        }
        proof {
            assert(before.take(k as int) =~= before);
            lemma_first_index(before, named(dir_name@));
        }
        self.items = kept;
        found
    }
}

/// The items of the trash, oldest first.
pub fn get_trash_items(manifest: &TrashManifest) -> (r: &Vec<TrashItem>)
    ensures
        views(r@) == manifest@,
{
    &manifest.items
}

/// Takes an item out of the trash so that its files can be moved back. The
/// item must be listed and its directory must still be there; on an error
/// the manifest stays as it is.
pub fn restore_from_trash(manifest: &mut TrashManifest, dir_name: &str, dir_exists: bool) -> (r:
    Result<TrashItem, TrashError>)
    ensures
        match r {
            Ok(item) => {
                &&& dir_exists
                &&& item_index(old(manifest)@, dir_name@) is Some
                &&& item@ == old(manifest)@[item_index(old(manifest)@, dir_name@)->0]
                &&& final(manifest)@ == without_item(old(manifest)@, dir_name@)
            },
            Err(e) => {
                &&& final(manifest)@ == old(manifest)@
                &&& e == TrashError::NoSuchItem <==> item_index(old(manifest)@, dir_name@) is None
                &&& e == TrashError::MissingDirectory <==> (item_index(old(manifest)@, dir_name@)
                    is Some && !dir_exists)
            },
        },
{
    if manifest.find(dir_name).is_none() {
        return Err(TrashError::NoSuchItem);
    }
    if !dir_exists {
        return Err(TrashError::MissingDirectory);
    }
    match manifest.remove(dir_name) {
        Some(item) => Ok(item),
        None => Err(TrashError::NoSuchItem),
    }
}

/// Takes an item off the manifest for good. Nothing happens where the
/// manifest does not list it.
pub fn permanently_delete(manifest: &mut TrashManifest, dir_name: &str)
    ensures
        final(manifest)@ == without_item(old(manifest)@, dir_name@),
        item_index(final(manifest)@, dir_name@) is None,
{
    proof {
        lemma_without_item_has_none(manifest@, dir_name@);
    }
    let _ = manifest.remove(dir_name);
}

/// Takes every item off the manifest that was deleted more than
/// `retention_days` days before `now`, and hands these items back, oldest
/// first, for their directories to be deleted. Times are in seconds.
pub fn cleanup_expired_trash(manifest: &mut TrashManifest, now: i64, retention_days: i64) -> (removed:
    Vec<TrashItem>)
    ensures
        views(removed@) == expired(old(manifest)@, cutoff(now, retention_days)),
        final(manifest)@ == unexpired(old(manifest)@, cutoff(now, retention_days)),
{
    let limit: i128 = (now as i128) - (retention_days as i128) * (SECONDS_PER_DAY as i128);
    let ghost before = manifest@;
    let ghost gone = deleted_before(limit as int);
    let ghost stay = deleted_since(limit as int);
    let mut items: Vec<TrashItem> = Vec::new();
    std::mem::swap(&mut items, &mut manifest.items);
    let mut kept: Vec<TrashItem> = Vec::new();
    let mut removed: Vec<TrashItem> = Vec::new();
    let mut k: usize = 0;
    let n = items.len();
    proof {
        assert(before.take(0) =~= Seq::<TrashItemView>::empty());
        assert(views(kept@) =~= select(before.take(0), stay));
        assert(views(removed@) =~= select(before.take(0), gone));
        assert(views(items@).skip(0) =~= before);
    }
    while items.len() > 0
        invariant
            gone == deleted_before(limit as int),
            stay == deleted_since(limit as int),
            k + items.len() == n,
            n == before.len(),
            views(items@) == before.skip(k as int),
            views(kept@) == select(before.take(k as int), stay),
            views(removed@) == select(before.take(k as int), gone),
        decreases items.len(),
    {
        let ghost rest = items@;
        let item = items.remove(0);
        proof {
            lemma_select_step(before, stay, k as int);
            lemma_select_step(before, gone, k as int);
            assert(before.skip(k as int)[0] == before[k as int]);
            assert(views(rest)[0] == rest[0]@);
            assert(item@ == before[k as int]);
            assert forall|j: int| 0 <= j < items@.len() implies views(items@)[j] == before.skip(
                k + 1,
            )[j] by {
                assert(items@[j] == rest[j + 1]);
                assert(views(rest)[j + 1] == rest[j + 1]@);
                assert(before.skip(k as int)[j + 1] == before[k + j + 1]);
            }
            assert(views(items@) =~= before.skip(k + 1));
        }
        if (item.deleted_at as i128) < limit {
            proof {
                assert(views(removed@.push(item)) =~= views(removed@).push(item@));
            }
            removed.push(item);
        } else {
            proof {
                assert(views(kept@.push(item)) =~= views(kept@).push(item@));
            }
            kept.push(item);
        }
        k = k + 1;
    }
    proof {
        assert(before.take(k as int) =~= before);
    }
    manifest.items = kept;
    removed
}

/// After an item was taken off, the manifest lists none of its name.
pub proof fn lemma_without_item_has_none(items: Seq<TrashItemView>, dir_name: Seq<char>)
    ensures
        item_index(without_item(items, dir_name), dir_name) is None,
    decreases items.len(),
{
    let after = without_item(items, dir_name);
    assert forall|j: int| 0 <= j < after.len() implies !named(dir_name)(#[trigger] after[j]) by {
        crate::seqs::lemma_select_source(items, other_than(dir_name), j);
    }
    lemma_first_index_none(after, named(dir_name));
}

/// Taking off a name that is not listed changes nothing.
pub proof fn lemma_without_unlisted_item(items: Seq<TrashItemView>, dir_name: Seq<char>)
    requires
        item_index(items, dir_name) is None,
    ensures
        without_item(items, dir_name) == items,
    decreases items.len(),
{
    lemma_first_index(items, named(dir_name));
    if items.len() > 0 {
        let rest = items.drop_last();
        assert forall|j: int| 0 <= j < rest.len() implies !named(dir_name)(#[trigger] rest[j]) by {
            assert(rest[j] == items[j]);
        }
        lemma_first_index_none(rest, named(dir_name));
        lemma_without_unlisted_item(rest, dir_name);
        assert(!named(dir_name)(items[items.len() - 1]));
        assert(items =~= rest.push(items.last()));
    }
}

/// Deleting a session and restoring it leaves the manifest as it was, and
/// the restored item is the one that the deletion listed, with the path
/// that the file had. This holds where the trash held no item of the same
/// name before.
pub proof fn lemma_restore_undoes_delete(items: Seq<TrashItemView>, item: TrashItemView)
    requires
        item_index(items, item.dir_name) is None,
    ensures
        item_index(items.push(item), item.dir_name) == Some(items.len() as int),
        items.push(item)[items.len() as int] == item,
        without_item(items.push(item), item.dir_name) == items,
        item_index(without_item(items.push(item), item.dir_name), item.dir_name) is None,
{
    let listed = items.push(item);
    lemma_first_index(items, named(item.dir_name));
    assert forall|j: int| 0 <= j < items.len() implies !named(item.dir_name)(
        #[trigger] listed[j],
    ) by {
        assert(listed[j] == items[j]);
    }
    lemma_first_index_is(listed, named(item.dir_name), items.len() as int);
    assert(listed.drop_last() =~= items);
    lemma_without_unlisted_item(items, item.dir_name);
}

} // verus!
