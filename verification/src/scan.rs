//! Scanning: bringing the index up to date with one directory's listing.
//!
//! Reading a directory is the caller's work. The caller reads the directory
//! that `Index::scan_path` names, hands the listing to `Index::scan`, and
//! goes on with each directory that the scan has newly made an item for.

use vstd::prelude::*;
use vstd::string::*;
use crate::counter::issued;
use crate::error::IndexError;
use crate::index::Index;
use crate::item::{Item, ItemView};
use crate::keys::counter_key;
use crate::model::{
    child_at, item_at, lemma_with_child, lemma_with_child_elsewhere, lemma_with_issue_elsewhere,
    lemma_with_item, lemma_with_item_elsewhere, with_child, with_issue, with_item,
};
use crate::shape::{lemma_scan_entry_steps, well_formed};
use crate::store::held;

verus! {

/// One entry of a directory's listing.
#[derive(Clone, Debug, PartialEq, Eq)]
pub struct DirEntry {
    /// The entry's name: one segment of a path.
    pub name: String,
    /// Whether the entry is a directory.
    pub is_dir: bool,
    /// The entry's length in bytes.
    pub size: u64,
}

/// What an entry is, as a plain value.
pub struct DirEntryView {
    pub name: Seq<char>,
    pub is_dir: bool,
    pub size: u64,
}

impl View for DirEntry {
    type V = DirEntryView;

    open spec fn view(&self) -> DirEntryView {
        DirEntryView { name: self.name@, is_dir: self.is_dir, size: self.size }
    }
}

/// A listing, as a plain value.
pub open spec fn listing(entries: Seq<DirEntry>) -> Seq<DirEntryView> {
    Seq::new(entries.len(), |i: int| entries[i]@)
}

/// The item that is made for an entry: a file has its length as its size,
/// a directory has none.
pub open spec fn entry_item(id: u64, parent: u64, entry: DirEntryView) -> ItemView {
    ItemView {
        id,
        parent,
        name: entry.name,
        size: if entry.is_dir {
            0
        } else {
            entry.size
        },
    }
}

/// The scan of one entry below `parent`: what the store holds afterwards,
/// and the identifier of the item that was made, if one was.
///
/// An entry whose name is mapped already is passed over. For any other, an
/// identifier is issued, the item is put, and the name is mapped to it.
pub open spec fn scan_entry(contents: Map<Seq<u8>, Seq<u8>>, parent: u64, entry: DirEntryView) -> (
    Map<Seq<u8>, Seq<u8>>,
    Result<Option<u64>, IndexError>,
) {
    match child_at(contents, parent, entry.name) {
        Err(e) => (contents, Err(e)),
        Ok(Some(_)) => (contents, Ok(None)),
        Ok(None) => match issued(held(contents, counter_key())) {
            Err(e) => (with_issue(contents), Err(e)),
            Ok(id) => (
                with_child(
                    with_item(with_issue(contents), entry_item(id, parent, entry)),
                    parent,
                    entry.name,
                    id,
                ),
                Ok(Some(id)),
            ),
        },
    }
}

/// The scan of a listing below `parent`, entry by entry, up to the first
/// that fails: what the store holds afterwards, and the identifiers of the
/// directories that were newly made, in the listing's order.
pub open spec fn scan_entries(
    contents: Map<Seq<u8>, Seq<u8>>,
    parent: u64,
    entries: Seq<DirEntryView>,
) -> (Map<Seq<u8>, Seq<u8>>, Result<Seq<u64>, IndexError>)
    decreases entries.len(),
{
    if entries.len() == 0 {
        (contents, Ok(Seq::empty()))
    } else {
        let before = scan_entries(contents, parent, entries.drop_last());
        match before.1 {
            Err(e) => before,
            Ok(dirs) => {
                let step = scan_entry(before.0, parent, entries.last());
                match step.1 {
                    Err(e) => (step.0, Err(e)),
                    Ok(Some(id)) => (
                        step.0,
                        Ok(
                            if entries.last().is_dir {
                                dirs.push(id)
                            } else {
                                dirs
                            },
                        ),
                    ),
                    Ok(None) => (step.0, Ok(dirs)),
                }
            },
        }
    }
}

/// The scan of a listing below `parent`. Nothing is scanned below an item
/// that cannot be fetched.
pub open spec fn scanned(contents: Map<Seq<u8>, Seq<u8>>, parent: u64, entries: Seq<DirEntryView>)
    -> (Map<Seq<u8>, Seq<u8>>, Result<Seq<u64>, IndexError>) {
    match item_at(contents, parent) {
        Err(e) => (contents, Err(e)),
        Ok(_) => scan_entries(contents, parent, entries),
    }
}

/// The scan of an entry keeps every mapping that is there, and every
/// identifier that led to an item still leads to one. An entry that was
/// scanned without failure is mapped afterwards.
pub proof fn lemma_scan_entry_keeps(
    contents: Map<Seq<u8>, Seq<u8>>,
    parent: u64,
    entry: DirEntryView,
    id: u64,
    name: Seq<char>,
)
    requires
        crate::item::recordable(entry_item(0, parent, entry)),
    ensures
        item_at(contents, id) is Ok ==> item_at(scan_entry(contents, parent, entry).0, id) is Ok,
        child_at(contents, parent, name) matches Ok(Some(child)) ==> child_at(
            scan_entry(contents, parent, entry).0,
            parent,
            name,
        ) == Ok::<Option<u64>, IndexError>(Some(child)),
        scan_entry(contents, parent, entry).1 is Ok ==> child_at(
            scan_entry(contents, parent, entry).0,
            parent,
            entry.name,
        ) matches Ok(Some(_)),
{
    let issue = with_issue(contents);
    lemma_with_issue_elsewhere(contents, id, parent, name);
    lemma_with_issue_elsewhere(contents, id, parent, entry.name);
    if child_at(contents, parent, entry.name) == Ok::<Option<u64>, IndexError>(None) {
        if issued(held(contents, counter_key())) is Ok {
            let new = issued(held(contents, counter_key()))->Ok_0;
            let item = entry_item(new, parent, entry);
            let put = with_item(issue, item);
            lemma_with_item(issue, item, id);
            lemma_with_item_elsewhere(issue, item, parent, name);
            lemma_with_item_elsewhere(issue, item, parent, entry.name);
            lemma_with_child(put, parent, entry.name, new, parent, name);
            lemma_with_child_elsewhere(put, parent, entry.name, new, id);
        }
    }
}

/// Whether every entry of a listing has a name that fits a record.
pub open spec fn recordable_listing(parent: u64, entries: Seq<DirEntryView>) -> bool {
    forall|i: int|
        0 <= i < entries.len() ==> crate::item::recordable(
            #[trigger] entry_item(0, parent, entries[i]),
        )
}

/// After a scan without failure every entry of the listing is mapped, and
/// what could be fetched before can be fetched still.
pub proof fn lemma_scan_entries_maps(
    contents: Map<Seq<u8>, Seq<u8>>,
    parent: u64,
    entries: Seq<DirEntryView>,
    id: u64,
)
    requires
        recordable_listing(parent, entries),
        scan_entries(contents, parent, entries).1 is Ok,
    ensures
        item_at(contents, id) is Ok ==> item_at(scan_entries(contents, parent, entries).0, id)
            is Ok,
        forall|i: int|
            0 <= i < entries.len() ==> (#[trigger] child_at(
                scan_entries(contents, parent, entries).0,
                parent,
                entries[i].name,
            )) matches Ok(Some(_)),
    decreases entries.len(),
{
    if entries.len() > 0 {
        let front = entries.drop_last();
        let before = scan_entries(contents, parent, front);
        assert(recordable_listing(parent, front)) by {
            assert forall|i: int| 0 <= i < front.len() implies crate::item::recordable(
                #[trigger] entry_item(0, parent, front[i]),
            ) by {
                assert(front[i] == entries[i]);
            }
        }
        lemma_scan_entries_maps(contents, parent, front, id);
        let last = entries.last();
        assert(crate::item::recordable(entry_item(0, parent, last)));
        let after = scan_entry(before.0, parent, last);
        assert(scan_entries(contents, parent, entries).0 == after.0);
        lemma_scan_entry_keeps(before.0, parent, last, id, last.name);
        assert forall|i: int| 0 <= i < entries.len() implies (#[trigger] child_at(
            after.0,
            parent,
            entries[i].name,
        )) matches Ok(Some(_)) by {
            if i < front.len() {
                assert(front[i] == entries[i]);
                assert(child_at(before.0, parent, front[i].name) matches Ok(Some(_)));
                lemma_scan_entry_keeps(before.0, parent, last, id, entries[i].name);
            }
        }
    }
}

/// A listing whose entries are all mapped is scanned without any change.
pub proof fn lemma_scan_entries_known(
    contents: Map<Seq<u8>, Seq<u8>>,
    parent: u64,
    entries: Seq<DirEntryView>,
)
    requires
        forall|i: int|
            0 <= i < entries.len() ==> (#[trigger] child_at(contents, parent, entries[i].name))
                matches Ok(Some(_)),
    ensures
        scan_entries(contents, parent, entries) == (
            contents,
            Ok::<Seq<u64>, IndexError>(Seq::empty()),
        ),
    decreases entries.len(),
{
    if entries.len() > 0 {
        let front = entries.drop_last();
        assert forall|i: int| 0 <= i < front.len() implies (#[trigger] child_at(
            contents,
            parent,
            front[i].name,
        )) matches Ok(Some(_)) by {
            assert(front[i] == entries[i]);
        }
        lemma_scan_entries_known(contents, parent, front);
        assert(child_at(contents, parent, entries[entries.len() - 1].name) matches Ok(Some(_)));
    }
}

/// A scan that has failed at an entry goes no further: the entries after
/// it change nothing.
pub proof fn lemma_scan_entries_stops(
    contents: Map<Seq<u8>, Seq<u8>>,
    parent: u64,
    entries: Seq<DirEntryView>,
    done: int,
)
    requires
        0 <= done <= entries.len(),
        scan_entries(contents, parent, entries.take(done)).1 is Err,
    ensures
        scan_entries(contents, parent, entries) == scan_entries(
            contents,
            parent,
            entries.take(done),
        ),
    decreases entries.len(),
{
    if done == entries.len() {
        assert(entries.take(done) =~= entries);
    } else {
        let front = entries.drop_last();
        assert(front.take(done) =~= entries.take(done));
        lemma_scan_entries_stops(contents, parent, front, done);
    }
}

/// Scanning is idempotent: a second scan of the same listing, after a first
/// that did not fail, changes nothing in the store and makes no item.
pub proof fn lemma_scan_idempotent(
    contents: Map<Seq<u8>, Seq<u8>>,
    parent: u64,
    entries: Seq<DirEntryView>,
)
    requires
        recordable_listing(parent, entries),
        scanned(contents, parent, entries).1 is Ok,
    ensures
        scanned(scanned(contents, parent, entries).0, parent, entries) == (
            scanned(contents, parent, entries).0,
            Ok::<Seq<u64>, IndexError>(Seq::empty()),
        ),
{
    lemma_scan_entries_maps(contents, parent, entries, parent);
    lemma_scan_entries_known(scanned(contents, parent, entries).0, parent, entries);
}

impl Index {
    /// Scans one entry below `parent`.
    pub fn scan_entry(&mut self, parent: u64, entry: &DirEntry) -> (r: Result<
        Option<u64>,
        IndexError,
    >)
        ensures
            final(self).root_path() == old(self).root_path(),
            crate::item::recordable(entry_item(0, parent, entry@)),
            r != Err::<Option<u64>, IndexError>(IndexError::Io) ==> (final(self).contents(), r)
                == scan_entry(old(self).contents(), parent, entry@),
            well_formed(old(self).contents()) && item_at(old(self).contents(), parent) is Ok
                ==> well_formed(final(self).contents()) && item_at(
                final(self).contents(),
                parent,
            ) is Ok,
    {
        // A name's length in bytes is a machine length, so the name fits a record.
        let _name_len: usize = entry.name.as_str().as_bytes().len();
        proof {
            if well_formed(self.contents()) && item_at(self.contents(), parent) is Ok {
                lemma_scan_entry_steps(self.contents(), parent, entry@);
            }
        }
        match self.lookup_child(parent, entry.name.as_str()) {
            Err(e) => Err(e),
            Ok(Some(_)) => Ok(None),
            Ok(None) => {
                let id: u64 = match self.next_id() {
                    Ok(id) => id,
                    Err(e) => {
                        return Err(e);
                    },
                };
                let size: u64 = if entry.is_dir {
                    0
                } else {
                    entry.size
                };
                let item = Item { id, parent, name: entry.name.clone(), size };
                match self.insert_item(&item) {
                    Ok(()) => {},
                    Err(e) => {
                        return Err(e);
                    },
                }
                match self.insert_child(&item) {
                    Ok(()) => Ok(Some(id)),
                    Err(e) => Err(e),
                }
            },
        }
    }

    /// Scans the listing of a directory below `parent`: every entry that is
    /// not yet mapped gets an item. Returns the identifiers of the
    /// directories that were newly made, for the caller to scan next.
    pub fn scan(&mut self, parent: u64, entries: &Vec<DirEntry>) -> (r: Result<
        Vec<u64>,
        IndexError,
    >)
        ensures
            final(self).root_path() == old(self).root_path(),
            well_formed(old(self).contents()) ==> well_formed(final(self).contents()),
            r matches Ok(dirs) ==> recordable_listing(parent, listing(entries@)) && (
                final(self).contents(),
                Ok::<Seq<u64>, IndexError>(dirs@),
            ) == scanned(old(self).contents(), parent, listing(entries@)),
            r matches Err(e) ==> e == IndexError::Io || (
                final(self).contents(),
                Err::<Seq<u64>, IndexError>(e),
            ) == scanned(old(self).contents(), parent, listing(entries@)),
    {
        let ghost all = listing(entries@);
        match self.get_item(parent) {
            Ok(_) => {},
            Err(e) => {
                return Err(e);
            },
        }
        let mut dirs: Vec<u64> = Vec::new();
        let mut i: usize = 0;
        while i < entries.len()
            invariant
                i <= entries.len(),
                all == listing(entries@),
                item_at(old(self).contents(), parent) is Ok,
                well_formed(old(self).contents()) ==> well_formed(self.contents()) && item_at(
                    self.contents(),
                    parent,
                ) is Ok,
                recordable_listing(parent, all.take(i as int)),
                self.root_path() == old(self).root_path(),
                (self.contents(), Ok::<Seq<u64>, IndexError>(dirs@)) == scan_entries(
                    old(self).contents(),
                    parent,
                    all.take(i as int),
                ),
            decreases entries.len() - i,
        {
            let entry: &DirEntry = &entries[i];
            proof {
                assert(all.take(i + 1).drop_last() =~= all.take(i as int));
                assert(all.take(i + 1).last() == entry@);
            }
            match self.scan_entry(parent, entry) {
                Ok(Some(id)) => {
                    if entry.is_dir {
                        dirs.push(id);
                    }
                },
                Ok(None) => {},
                Err(e) => {
                    proof {
                        if e != IndexError::Io {
                            lemma_scan_entries_stops(old(self).contents(), parent, all, i + 1);
                        }
                    }
                    return Err(e);
                },
            }
            i = i + 1;
        }
        proof {
            assert(all.take(i as int) =~= all);
        }
        Ok(dirs)
    }
}

} // verus!
