//! A store that keeps its page files in memory.

use vstd::prelude::*;
use vstd::slice::slice_subrange;
use vstd::string::StringExecFns;
use crate::data::bigendian::copy_into;
use crate::data::layout::{page_position, PageDataLayout, FILE_HEADER_SIZE};
use crate::data::metadata::{MetadataView, PageFileMetadata};
use crate::data::page::Page;
use crate::store::file_model::{initialized, write_at};
use crate::store::{Store, StoreError};
use crate::table::table::Table;

verus! {

/// Whether `k` is the index of the first file of the table with id
/// `table_id`, or the number of files where there is none.
pub open spec fn is_file_index(files: Seq<(i32, Vec<u8>)>, table_id: int, k: int) -> bool {
    &&& 0 <= k <= files.len()
    &&& k < files.len() ==> files[k].0 == table_id
    &&& forall|j: int| 0 <= j < k ==> (#[trigger] files[j]).0 != table_id
}

/// The index of the first file of the table with id `table_id`, or the number
/// of files where there is none.
pub open spec fn file_index(files: Seq<(i32, Vec<u8>)>, table_id: int) -> int {
    choose|k: int| is_file_index(files, table_id, k)
}

/// There is a first file of a table or none, and `file_index` names it.
pub proof fn lemma_file_index(files: Seq<(i32, Vec<u8>)>, table_id: int)
    ensures
        is_file_index(files, table_id, file_index(files, table_id)),
    decreases files.len(),
{
    if files.len() == 0 {
        assert(is_file_index(files, table_id, 0));
    } else {
        let rest = files.drop_last();
        lemma_file_index(rest, table_id);
        let k = file_index(rest, table_id);
        assert forall|j: int| 0 <= j < k implies (#[trigger] files[j]).0 != table_id by {
            assert(rest[j] == files[j]);
        }
        if k < rest.len() {
            assert(rest[k] == files[k]);
            assert(is_file_index(files, table_id, k));
        } else if files.last().0 == table_id {
            assert(is_file_index(files, table_id, files.len() - 1));
        } else {
            assert(is_file_index(files, table_id, files.len() as int));
        }
    }
}

/// Only one index is that of the first file of a table.
pub proof fn lemma_file_index_unique(files: Seq<(i32, Vec<u8>)>, table_id: int, k: int)
    requires
        is_file_index(files, table_id, k),
    ensures
        k == file_index(files, table_id),
{
    lemma_file_index(files, table_id);
    let f = file_index(files, table_id);
    if k < f {
        assert(files[k].0 != table_id);
    } else if f < k {
        assert(files[f].0 != table_id);
    }
}

/// The bytes of the first file of the table with id `table_id`.
pub open spec fn file_of(files: Seq<(i32, Vec<u8>)>, table_id: int) -> Option<Seq<u8>> {
    let k = file_index(files, table_id);
    if k < files.len() {
        Some(files[k].1@)
    } else {
        None
    }
}

/// Replacing the bytes of a file moves no file.
proof fn lemma_index_after_replace(files: Seq<(i32, Vec<u8>)>, k: int, bytes: Vec<u8>, t: int)
    requires
        0 <= k < files.len(),
    ensures
        file_index(files.update(k, (files[k].0, bytes)), t) == file_index(files, t),
{
    let after = files.update(k, (files[k].0, bytes));
    lemma_file_index(files, t);
    let i = file_index(files, t);
    assert forall|j: int| 0 <= j < i implies (#[trigger] after[j]).0 != t by {
        assert(files[j].0 != t);
    }
    assert(is_file_index(after, t, i));
    lemma_file_index_unique(after, t, i);
}

/// Replacing the bytes of a file changes that file and no other.
pub proof fn lemma_file_replaced(files: Seq<(i32, Vec<u8>)>, k: int, bytes: Vec<u8>)
    requires
        0 <= k < files.len(),
        k == file_index(files, files[k].0 as int),
    ensures
        file_index(files.update(k, (files[k].0, bytes)), files[k].0 as int) == k,
        file_of(files.update(k, (files[k].0, bytes)), files[k].0 as int) == Some(bytes@),
        forall|t: int|
            t != files[k].0 ==> #[trigger] file_of(files.update(k, (files[k].0, bytes)), t)
                == file_of(files, t),
{
    let after = files.update(k, (files[k].0, bytes));
    lemma_index_after_replace(files, k, bytes, files[k].0 as int);
    assert forall|t: int| t != files[k].0 implies #[trigger] file_of(after, t) == file_of(
        files,
        t,
    ) by {
        lemma_index_after_replace(files, k, bytes, t);
        lemma_file_index(files, t);
    }
}

/// Adding a file moves no file; the new one is the last.
proof fn lemma_index_after_add(files: Seq<(i32, Vec<u8>)>, id: i32, bytes: Vec<u8>, t: int)
    requires
        file_index(files, id as int) == files.len(),
    ensures
        file_index(files.push((id, bytes)), t) == if t == id || file_index(files, t)
            < files.len() {
            file_index(files, t)
        } else {
            files.len() as int + 1
        },
{
    let after = files.push((id, bytes));
    lemma_file_index(files, t);
    let i = file_index(files, t);
    let k = if t == id || i < files.len() {
        i
    } else {
        files.len() as int + 1
    };
    assert forall|j: int| 0 <= j < k implies (#[trigger] after[j]).0 != t by {
        if j < files.len() {
            assert(files[j].0 != t);
        }
    }
    assert(is_file_index(after, t, k));
    lemma_file_index_unique(after, t, k);
}

/// A file that is added for a table that had none changes no other.
pub proof fn lemma_file_added(files: Seq<(i32, Vec<u8>)>, id: i32, bytes: Vec<u8>)
    requires
        file_index(files, id as int) == files.len(),
    ensures
        file_of(files.push((id, bytes)), id as int) == Some(bytes@),
        file_index(files.push((id, bytes)), id as int) == files.len(),
        forall|t: int|
            t != id ==> #[trigger] file_of(files.push((id, bytes)), t) == file_of(files, t),
{
    let after = files.push((id, bytes));
    lemma_index_after_add(files, id, bytes, id as int);
    assert forall|t: int| t != id implies #[trigger] file_of(after, t) == file_of(files, t) by {
        lemma_index_after_add(files, id, bytes, t);
        lemma_file_index(files, t);
        let i = file_index(files, t);
        if i < files.len() {
            assert(after[i] == files[i]);
        }
    }
}

/// A store in memory: for each table that was written to, the bytes of its
/// page file.
pub struct MemoryStore {
    files: Vec<(i32, Vec<u8>)>,
}

impl MemoryStore {
    /// A store without files.
    pub fn new() -> (store: MemoryStore)
        ensures
            forall|t: int| store.file(t) is None,
    {
        let store = MemoryStore { files: Vec::new() };
        assert forall|t: int| store.file(t) is None by {
            lemma_file_index(store.files@, t);
        }
        store
    }

    /// The bytes of the page file of `table`; `None` where the store has no
    /// file for it.
    pub fn file_bytes(&self, table: &Table) -> (bytes: Option<&Vec<u8>>)
        ensures
            bytes is Some <==> self.file(table.id as int) is Some,
            bytes is Some ==> Some(bytes->Some_0@) == self.file(table.id as int),
    {
        let k: usize = self.find(table.id);
        if k < self.files.len() {
            Some(&self.files[k].1)
        } else {
            None
        }
    }

    /// The index of the file of the table with id `id`, or the number of
    /// files.
    fn find(&self, id: i32) -> (k: usize)
        ensures
            k == file_index(self.files@, id as int),
            is_file_index(self.files@, id as int, k as int),
    {
        let mut i: usize = 0;
        while i < self.files.len() && self.files[i].0 != id
            invariant
                i <= self.files@.len(),
                forall|j: int| 0 <= j < i ==> (#[trigger] self.files@[j]).0 != id,
            decreases self.files@.len() - i,
        {
            i = i + 1;
        }
        proof {
            lemma_file_index_unique(self.files@, id as int, i as int);
        }
        i
    }

    /// The index of the file of the table with id `id`, which is made with
    /// the header of a file without pages where there is none.
    fn find_or_create(&mut self, layout: &PageDataLayout, id: i32) -> (k: usize)
        ensures
            k < final(self).files@.len(),
            k == file_index(final(self).files@, id as int),
            final(self).files@[k as int].0 == id,
            final(self).file(id as int) == Some(initialized(old(self).file(id as int))),
            final(self).files@[k as int].1@ == initialized(old(self).file(id as int)),
            forall|t: int| t != id ==> final(self).file(t) == old(self).file(t),
    {
        let k: usize = self.find(id);
        if k == self.files.len() {
            let header: Vec<u8> = PageFileMetadata::new().serialize(layout);
            proof {
                lemma_file_added(self.files@, id, header);
            }
            self.files.push((id, header));
        }
        k
    }

    /// Writes `data` at offset `at` of the file with index `k`. Refuses, and
    /// changes nothing, where the end of what is written cannot be addressed.
    fn write(&mut self, k: usize, at: u64, data: &[u8]) -> (done: bool)
        requires
            k < old(self).files@.len(),
            k == file_index(old(self).files@, old(self).files@[k as int].0 as int),
        ensures
            done <==> at + data@.len() <= usize::MAX,
            !done ==> final(self).files@ == old(self).files@,
            done ==> final(self).files@ == old(self).files@.update(
                k as int,
                (old(self).files@[k as int].0, final(self).files@[k as int].1),
            ),
            done ==> final(self).files@[k as int].1@ == write_at(
                old(self).files@[k as int].1@,
                at as int,
                data@,
            ),
            done ==> final(self).file(old(self).files@[k as int].0 as int) == Some(
                write_at(old(self).files@[k as int].1@, at as int, data@),
            ),
            done ==> forall|t: int|
                t != old(self).files@[k as int].0 ==> final(self).file(t) == old(self).file(t),
    {
        if at > usize::MAX as u64 || data.len() > usize::MAX - at as usize {
            return false;
        }
        let start: usize = at as usize;
        let end: usize = start + data.len();
        let ghost before = self.files@;
        let entry: (i32, Vec<u8>) = self.files.remove(k);
        let id: i32 = entry.0;
        let mut bytes: Vec<u8> = entry.1;
        let ghost old_bytes = bytes@;
        if bytes.len() < end {
            bytes.resize(end, 0u8);
        }
        copy_into(&mut bytes, start, data);
        assert(bytes@ =~= write_at(old_bytes, at as int, data@));
        proof {
            lemma_file_replaced(before, k as int, bytes);
            assert(before.remove(k as int).insert(k as int, (id, bytes)) =~= before.update(
                k as int,
                (id, bytes),
            ));
        }
        self.files.insert(k, (id, bytes));
        true
    }
}

impl Store for MemoryStore {
    open spec fn modelled(&self) -> bool {
        true
    }

    open spec fn reliable(&self) -> bool {
        true
    }

    open spec fn capacity(&self) -> int {
        usize::MAX as int
    }

    closed spec fn file(&self, table_id: int) -> Option<Seq<u8>> {
        file_of(self.files@, table_id)
    }

    /// Fails just where the file has no header that this engine writes. The
    /// file is made where there was none either way.
    fn read_metadata(&mut self, layout: &PageDataLayout, table: &Table) -> (r: Result<
        PageFileMetadata,
        StoreError,
    >)
        ensures
            r is Err ==> r->Err_0.detail() == if r->Err_0 is IoError {
                "Metadata size is smaller than expected"@
            } else {
                "Invalid page file metadata"@
            },
    {
        let k: usize = self.find_or_create(layout, table.id);
        let bytes: &Vec<u8> = &self.files[k].1;
        if bytes.len() < layout.metadata_size() {
            return Err(
                StoreError::IoError(String::from_str("Metadata size is smaller than expected")),
            );
        }
        match PageFileMetadata::deserialize(bytes.as_slice()) {
            Some(metadata) => Ok(metadata),
            None => Err(
                StoreError::DeserializationError(String::from_str("Invalid page file metadata")),
            ),
        }
    }

    /// Fails just where the file does not hold the page.
    fn read_page<'db>(&self, layout: &'db PageDataLayout, page_id: i32, table: &Table) -> (r:
        Result<Page<'db>, StoreError>)
        ensures
            r is Err ==> r->Err_0.detail() == if self.file(table.id as int) is None {
                "No such file"@
            } else if page_id < 1 {
                "Invalid page id"@
            } else if r->Err_0 is IoError {
                "failed to fill whole buffer"@
            } else {
                "Failed to read page from file."@
            },
    {
        let k: usize = self.find(table.id);
        if k == self.files.len() {
            return Err(StoreError::IoError(String::from_str("No such file")));
        }
        if page_id < 1 {
            return Err(StoreError::IoError(String::from_str("Invalid page id")));
        }
        let bytes: &Vec<u8> = &self.files[k].1;
        let at: u64 = layout.page_position(page_id);
        let size: usize = layout.page_size();
        if at > bytes.len() as u64 || bytes.len() - (at as usize) < size {
            return Err(StoreError::IoError(String::from_str("failed to fill whole buffer")));
        }
        let start: usize = at as usize;
        let image: &[u8] = slice_subrange(bytes.as_slice(), start, start + size);
        match Page::deserialize(image, layout) {
            Ok(page) => Ok(page),
            Err(_) => Err(
                StoreError::DeserializationError(
                    String::from_str("Failed to read page from file."),
                ),
            ),
        }
    }

    /// Fails just where the page has no id, the table has no file, or the end
    /// of the page cannot be addressed; the file is then as it was.
    fn write_page(&mut self, layout: &PageDataLayout, page: &Page, table: &Table) -> (r: Result<
        (),
        StoreError,
    >)
        ensures
            r is Err ==> r->Err_0.detail() == if page@.page_id < 1 {
                "Invalid page id"@
            } else if old(self).file(table.id as int) is None {
                "No such file"@
            } else {
                "File too large"@
            },
    {
        if page.page_id() < 1 {
            return Err(StoreError::IoError(String::from_str("Invalid page id")));
        }
        let k: usize = self.find(table.id);
        if k == self.files.len() {
            return Err(StoreError::IoError(String::from_str("No such file")));
        }
        let image: Vec<u8> = page.serialize();
        let at: u64 = layout.page_position(page.page_id());
        if self.write(k, at, image.as_slice()) {
            Ok(())
        } else {
            Err(StoreError::IoError(String::from_str("File too large")))
        }
    }

    /// Fails just where the file has no header that this engine writes, no
    /// id is left to give out, or the end of the new page cannot be addressed;
    /// nothing but the making of the file has then been done.
    fn allocate_page<'db>(&mut self, layout: &'db PageDataLayout, table: &Table) -> (r: Result<
        Page<'db>,
        StoreError,
    >)
        ensures
            r is Err ==> r->Err_0.detail() == if initialized(
                old(self).file(table.id as int),
            ).len() < FILE_HEADER_SIZE {
                "Metadata size is smaller than expected"@
            } else if !MetadataView::is_image(initialized(old(self).file(table.id as int))) {
                "Invalid page file metadata"@
            } else if !MetadataView::parse(
                initialized(old(self).file(table.id as int)),
            ).can_allocate() {
                "No page id left"@
            } else {
                "File too large"@
            },
    {
        let mut metadata: PageFileMetadata = match self.read_metadata(layout, table) {
            Ok(metadata) => metadata,
            Err(e) => {
                return Err(e);
            },
        };
        if !metadata.can_allocate() {
            return Err(StoreError::IoError(String::from_str("No page id left")));
        }
        let at: u64 = layout.page_position(metadata.next_id());
        if at > usize::MAX as u64 || layout.page_size() > usize::MAX - at as usize {
            return Err(StoreError::IoError(String::from_str("File too large")));
        }
        let mut page: Page<'db> = Page::new(layout);
        let id: i32 = metadata.allocate_next_page_id();
        page.set_page_id(id);
        let k: usize = self.find(table.id);
        let header: Vec<u8> = metadata.serialize(layout);
        self.write(k, 0, header.as_slice());
        match self.write_page(layout, &page, table) {
            Ok(()) => Ok(page),
            Err(e) => Err(e),
        }
    }
}

} // verus!
