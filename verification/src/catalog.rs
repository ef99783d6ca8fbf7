use crate::entry::EntryId;
use crate::entry_tag::spec_set_entry_tags;
use crate::folder::{Folder, ROOT_FOLDER_ID};
use crate::id_map::IdMap;
use crate::model::DatabaseData;
use crate::name_map::NameMap;
use crate::store::{exec_batch, exec_sql, insert_sql, SqlArg};
use crate::tag::{tag_children, Tag, TagId, ROOT_TAG_ID};
use crate::tag_delete::{is_deleted_tag_set, spec_delete_tag, spec_remove_tags_from_entries};
use crate::tag_ops::{spec_new_tag, spec_rename_tag, spec_reorder_tag, spec_set_tag_color};
use crate::Error;
use vstd::prelude::*;

verus! {

/// The schema of the persistent store: five tables, with the two sentinel
/// root rows inserted.
pub fn create_schema(db: &rusqlite::Connection) -> (r: Result<(), Error>) {
    let res = exec_batch(
        db,
        "BEGIN;
        CREATE TABLE metadata (
            id INTEGER PRIMARY KEY AUTOINCREMENT,
            version INTEGER NOT NULL
        );
        INSERT INTO metadata (version) VALUES (1);
        CREATE TABLE entries (
            id INTEGER PRIMARY KEY AUTOINCREMENT,
            file_name TEXT NOT NULL,
            folder_id INTEGER NOT NULL,
            deleted DATETIME DEFAULT NULL,
            FOREIGN KEY (folder_id) REFERENCES folders(id) ON DELETE CASCADE,
            UNIQUE (folder_id, file_name)
        );
        CREATE TABLE folders (
            id INTEGER PRIMARY KEY AUTOINCREMENT,
            parent INTEGER NOT NULL REFERENCES folders(id) ON DELETE CASCADE,
            name TEXT NOT NULL,
            deleted DATETIME DEFAULT NULL,
            UNIQUE (parent, name)
        );
        CREATE TABLE tags (
            id INTEGER PRIMARY KEY AUTOINCREMENT,
            name TEXT NOT NULL UNIQUE,
            parent INTEGER NOT NULL REFERENCES tags(id) ON DELETE CASCADE,
            position INTEGER NOT NULL,
            color INTEGER DEFAULT 0,
            deleted DATETIME DEFAULT NULL
        );
        CREATE TABLE entry_tag (
            entry_id INTEGER NOT NULL,
            tag_id INTEGER NOT NULL,
            PRIMARY KEY (entry_id, tag_id),
            FOREIGN KEY (entry_id) REFERENCES entries(id) ON DELETE CASCADE,
            FOREIGN KEY (tag_id) REFERENCES tags(id) ON DELETE CASCADE
        );
        INSERT INTO folders (id, name, parent) VALUES (-1, '', -1);
        INSERT INTO tags (id, name, parent, position) VALUES (-1, '', -1, 0);
        COMMIT;",
    );
    match res {
        Ok(()) => Ok(()),
        Err(e) => Err(Error::Store(e)),
    }
}

/// The startup maintenance sweep: drop rows soft-deleted more than thirty
/// days ago.
pub fn prune(db: &rusqlite::Connection) -> (r: Result<(), Error>) {
    let res = exec_batch(
        db,
        "DELETE FROM entries
        WHERE deleted IS NOT NULL
        AND deleted < datetime('now', '-30 days');
        DELETE FROM folders
        WHERE deleted IS NOT NULL
        AND deleted < datetime('now', '-30 days');
        DELETE FROM tags
        WHERE deleted IS NOT NULL
        AND deleted < datetime('now', '-30 days');",
    );
    match res {
        Ok(()) => Ok(()),
        Err(e) => Err(Error::Store(e)),
    }
}

impl DatabaseData {
    /// A catalog holding only the two sentinel roots; the root folder
    /// carries the base directory's name.
    pub fn new_empty(base_name: String) -> (r: DatabaseData)
        ensures
            r.wf(),
            r.entries_view().dom() == Set::<int>::empty(),
            r.folders_view().dom() =~= Set::<int>::empty().insert(ROOT_FOLDER_ID as int),
            r.tags_view().dom() =~= Set::<int>::empty().insert(ROOT_TAG_ID as int),
            r.folders_view()[ROOT_FOLDER_ID as int].name == base_name@,
            r.folders_view()[ROOT_FOLDER_ID as int].sub == Map::<Seq<char>, i32>::empty(),
            r.folders_view()[ROOT_FOLDER_ID as int].files == Map::<Seq<char>, i32>::empty(),
            r.tags_view()[ROOT_TAG_ID as int].name == Seq::<char>::empty(),
    {
        let root_folder = Folder {
            id: ROOT_FOLDER_ID,
            parent_id: ROOT_FOLDER_ID,
            name: base_name,
            path: Vec::new(),
            sub_folders: NameMap::new(),
            entries: NameMap::new(),
        };
        let root_tag = Tag {
            id: ROOT_TAG_ID,
            name: String::new(),
            parent_id: ROOT_TAG_ID,
            position: 0,
            color: 0,
        };
        let mut folders: IdMap<Folder> = IdMap::new();
        folders.insert_new(ROOT_FOLDER_ID, root_folder);
        let mut tags: IdMap<Tag> = IdMap::new();
        tags.insert_new(ROOT_TAG_ID, root_tag);
        let r = DatabaseData { folders, entries: IdMap::new(), tags };
        proof {
            assert(r.folders_view().dom() =~= Set::<int>::empty().insert(ROOT_FOLDER_ID as int));
            assert(r.tags_view().dom() =~= Set::<int>::empty().insert(ROOT_TAG_ID as int));
            assert(r.entries_view().dom() =~= Set::<int>::empty());
            assert(r.folders_view()[ROOT_FOLDER_ID as int].path =~= Seq::<Seq<char>>::empty());
            assert(tag_children(r.tags_view(), ROOT_TAG_ID as int) =~= Set::<int>::empty());
            assert forall|p: int| true implies tag_children(r.tags_view(), p)
                =~= Set::<int>::empty() by {}
            assert(r.tags_view().dom().len() == 1) by {
                assert(Set::<int>::empty().insert(ROOT_TAG_ID as int).len() == 1);
            }
        }
        r
    }

    /// Create a tag under the root: refused when any tag already carries
    /// the name, else the store picks the id and the model appends the tag
    /// to the root's children.
    pub fn new_tag(&mut self, name: String, db: &rusqlite::Connection) -> (r: Result<TagId, Error>)
        requires
            old(self).wf(),
            old(self).tags_view().dom().len() < 0x7fff_ffff,
        ensures
            final(self).wf(),
            final(self).folders@ == old(self).folders@,
            final(self).entries@ == old(self).entries@,
            match r {
                Ok(id) => !old(self).tags_view().contains_key(id as int) && id != ROOT_TAG_ID
                    && final(self).tags_view() == spec_new_tag(
                    old(self).tags_view(),
                    id as int,
                    name@,
                ) && !(exists|k: int|
                    #[trigger] old(self).tags_view().contains_key(k)
                        && old(self).tags_view()[k].name == name@),
                Err(e) => final(self).tags@ == old(self).tags@ && (e matches Error::TagAlreadyExists(
                    n,
                ) ==> (n@ == name@ && exists|k: int|
                    #[trigger] old(self).tags_view().contains_key(k)
                        && old(self).tags_view()[k].name == name@)),
            },
            (exists|k: int|
                #[trigger] old(self).tags_view().contains_key(k) && old(self).tags_view()[k].name
                    == name@) ==> (r matches Err(e2) && e2 matches Error::TagAlreadyExists(n2)
                && n2@ == name@),
    {
        if self.tag_name_exists(&name) {
            return Err(Error::TagAlreadyExists(name));
        }
        let position = self.count_tag_children(ROOT_TAG_ID);
        proof {
            crate::tag::lemma_tag_children_finite(self.tags_view(), ROOT_TAG_ID as int);
        }
        let mut args: Vec<SqlArg> = Vec::new();
        args.push(SqlArg::Text(name.clone()));
        args.push(SqlArg::Int(ROOT_TAG_ID as i64));
        args.push(SqlArg::Int(position as i64));
        let new_id = match insert_sql(
            db,
            "INSERT INTO tags (name, parent, position) VALUES (?, ?, ?)",
            &args,
        ) {
            Ok(raw) => {
                if raw < (-0x8000_0000i64) || raw > 0x7fff_ffffi64 {
                    return Err(Error::Other(String::new()));
                }
                raw as i32
            },
            Err(e) => {
                return Err(Error::Store(e));
            },
        };
        if new_id == ROOT_TAG_ID || self.tags.contains(new_id) {
            return Err(Error::Other(String::new()));
        }
        self.apply_new_tag(new_id, name);
        Ok(new_id)
    }

    /// Rename a tag: refused when any tag (itself included) already
    /// carries the name.
    pub fn rename_tag(&mut self, tag_id: TagId, name: String, db: &rusqlite::Connection) -> (r:
        Result<(), Error>)
        requires
            old(self).wf(),
            tag_id != ROOT_TAG_ID,
            old(self).tags_view().contains_key(tag_id as int),
        ensures
            final(self).wf(),
            final(self).folders@ == old(self).folders@,
            final(self).entries@ == old(self).entries@,
            match r {
                Ok(_) => final(self).tags_view() == spec_rename_tag(
                    old(self).tags_view(),
                    tag_id as int,
                    name@,
                ) && !(exists|k: int|
                    #[trigger] old(self).tags_view().contains_key(k)
                        && old(self).tags_view()[k].name == name@),
                Err(e) => final(self).tags@ == old(self).tags@ && (e matches Error::TagAlreadyExists(
                    n,
                ) ==> (n@ == name@ && exists|k: int|
                    #[trigger] old(self).tags_view().contains_key(k)
                        && old(self).tags_view()[k].name == name@)),
            },
            (exists|k: int|
                #[trigger] old(self).tags_view().contains_key(k) && old(self).tags_view()[k].name
                    == name@) ==> (r matches Err(e2) && e2 matches Error::TagAlreadyExists(n2)
                && n2@ == name@),
    {
        if self.tag_name_exists(&name) {
            return Err(Error::TagAlreadyExists(name));
        }
        let mut args: Vec<SqlArg> = Vec::new();
        args.push(SqlArg::Text(name.clone()));
        args.push(SqlArg::Int(tag_id as i64));
        match exec_sql(db, "UPDATE tags SET name = ? WHERE id = ?", &args) {
            Ok(_) => {},
            Err(e) => {
                return Err(Error::Store(e));
            },
        }
        self.apply_rename_tag(tag_id, name);
        Ok(())
    }

    /// Set a tag's color.
    pub fn set_tag_color(&mut self, tag_id: TagId, color: i32, db: &rusqlite::Connection) -> (r:
        Result<(), Error>)
        requires
            old(self).wf(),
            tag_id != ROOT_TAG_ID,
            old(self).tags_view().contains_key(tag_id as int),
        ensures
            final(self).wf(),
            final(self).folders@ == old(self).folders@,
            final(self).entries@ == old(self).entries@,
            match r {
                Ok(_) => final(self).tags_view() == spec_set_tag_color(
                    old(self).tags_view(),
                    tag_id as int,
                    color as int,
                ),
                Err(_) => final(self).tags@ == old(self).tags@,
            },
    {
        let mut args: Vec<SqlArg> = Vec::new();
        args.push(SqlArg::Int(color as i64));
        args.push(SqlArg::Int(tag_id as i64));
        match exec_sql(db, "UPDATE tags SET color = ? WHERE id = ?", &args) {
            Ok(_) => {},
            Err(e) => {
                return Err(Error::Store(e));
            },
        }
        self.apply_set_tag_color(tag_id, color);
        Ok(())
    }

    /// Delete a tag and all its descendants, dropping the removed ids from
    /// every entry.
    pub fn delete_tag(&mut self, tag_id: TagId, db: &rusqlite::Connection) -> (r: Result<
        (),
        Error,
    >)
        requires
            old(self).wf(),
            tag_id != ROOT_TAG_ID,
            old(self).tags_view().contains_key(tag_id as int),
        ensures
            final(self).wf(),
            final(self).folders@ == old(self).folders@,
            match r {
                Ok(_) => exists|d: Set<int>|
                    {
                        &&& #[trigger] is_deleted_tag_set(old(self).tags_view(), tag_id as int, d)
                        &&& final(self).tags_view() == spec_delete_tag(
                            old(self).tags_view(),
                            tag_id as int,
                            d,
                        )
                        &&& final(self).entries_view() == spec_remove_tags_from_entries(
                            old(self).entries_view(),
                            d,
                        )
                    },
                Err(_) => final(self).tags@ == old(self).tags@ && final(self).entries@ == old(self).entries@,
            },
    {
        let (del_parent, del_pos) = match self.tags.get(tag_id) {
            Some(t) => (t.parent_id, t.position),
            None => vstd::pervasive::unreached(),
        };
        let dvec = self.collect_tag_subtree(tag_id);
        // The subtree's soft-deletes and the position compaction are one
        // logical change, so they travel in one store transaction.
        match exec_batch(db, "BEGIN;") {
            Ok(_) => {},
            Err(e) => {
                return Err(Error::Store(e));
            },
        }
        let m = dvec.len();
        let mut i: usize = 0;
        while i < m
            invariant
                0 <= i <= m,
                m == dvec@.len(),
                self.folders == old(self).folders,
                self.entries == old(self).entries,
                self.tags == old(self).tags,
            decreases m - i,
        {
            let mut args: Vec<SqlArg> = Vec::new();
            args.push(SqlArg::Int(dvec[i] as i64));
            match exec_sql(db, "UPDATE tags SET deleted = datetime('now') WHERE id = ?", &args) {
                Ok(_) => {},
                Err(e) => {
                    let _ = exec_batch(db, "ROLLBACK;");
                    return Err(Error::Store(e));
                },
            }
            i += 1;
        }
        // Close the position gap among the later siblings in the store,
        // matching the model's compaction.
        let mut shift_args: Vec<SqlArg> = Vec::new();
        shift_args.push(SqlArg::Int(del_parent as i64));
        shift_args.push(SqlArg::Int(del_pos as i64));
        match exec_sql(
            db,
            "UPDATE tags SET position = position - 1 WHERE id <> -1 AND parent = ? AND position > ? AND deleted IS NULL",
            &shift_args,
        ) {
            Ok(_) => {},
            Err(e) => {
                let _ = exec_batch(db, "ROLLBACK;");
                return Err(Error::Store(e));
            },
        }
        match exec_batch(db, "COMMIT;") {
            Ok(_) => {},
            Err(e) => {
                let _ = exec_batch(db, "ROLLBACK;");
                return Err(Error::Store(e));
            },
        }
        self.apply_delete_tag(tag_id);
        Ok(())
    }

    /// Move a tag to a new parent and position; `to_pos == -1` appends to
    /// the target parent's children. A move that changes nothing is a
    /// no-op.
    pub fn reorder_tag(
        &mut self,
        tag_id: TagId,
        to_parent_id: TagId,
        to_pos: i32,
        db: &rusqlite::Connection,
    ) -> (r: Result<(), Error>)
        requires
            old(self).wf(),
            tag_id != ROOT_TAG_ID,
            old(self).tags_view().contains_key(tag_id as int),
            old(self).tags_view().contains_key(to_parent_id as int),
            to_parent_id != tag_id,
            to_pos == -1 || (old(self).tags_view()[tag_id as int].parent == to_parent_id as int
                && 0 <= to_pos < tag_children(old(self).tags_view(), to_parent_id as int).len())
                || (old(self).tags_view()[tag_id as int].parent != to_parent_id as int && 0
                <= to_pos <= tag_children(old(self).tags_view(), to_parent_id as int).len()),
        ensures
            final(self).wf(),
            final(self).folders@ == old(self).folders@,
            final(self).entries@ == old(self).entries@,
            match r {
                Ok(_) => final(self).tags_view() == spec_reorder_tag(
                    old(self).tags_view(),
                    tag_id as int,
                    to_parent_id as int,
                    resolved_reorder_pos(
                        old(self).tags_view(),
                        tag_id as int,
                        to_parent_id as int,
                        to_pos as int,
                    ),
                ),
                Err(_) => final(self).tags@ == old(self).tags@,
            },
    {
        let ghost tv = self.tags_view();
        let (from_parent, from_pos) = match self.tags.get(tag_id) {
            Some(t) => (t.parent_id, t.position),
            None => vstd::pervasive::unreached(),
        };
        proof {
            crate::tag::lemma_tag_children_finite(tv, to_parent_id as int);
            if from_parent == to_parent_id {
                assert(tag_children(tv, to_parent_id as int).contains(tag_id as int));
                assert(tag_children(tv, to_parent_id as int).len() >= 1) by {
                    assert(tag_children(tv, to_parent_id as int).remove(tag_id as int).len()
                        == tag_children(tv, to_parent_id as int).len() - 1);
                }
            }
        }
        let resolved: i32 = if to_pos == -1 {
            let c = self.count_tag_children(to_parent_id);
            if from_parent == to_parent_id {
                (c - 1) as i32
            } else {
                c as i32
            }
        } else {
            to_pos
        };
        proof {
            assert(resolved as int == resolved_reorder_pos(
                tv,
                tag_id as int,
                to_parent_id as int,
                to_pos as int,
            ));
        }
        if from_parent == to_parent_id && from_pos == resolved {
            proof {
                lemma_reorder_noop(tv, tag_id as int, to_parent_id as int, resolved as int);
            }
            return Ok(());
        }
        // The store first, in one transaction; the model only after it
        // committed.
        match exec_batch(db, "BEGIN;") {
            Ok(_) => {},
            Err(e) => {
                return Err(Error::Store(e));
            },
        }
        let shift_res: Result<usize, crate::store::StoreError> = if from_parent == to_parent_id {
            let mut args: Vec<SqlArg> = Vec::new();
            args.push(SqlArg::Int(from_parent as i64));
            args.push(SqlArg::Int(from_pos as i64));
            args.push(SqlArg::Int(resolved as i64));
            if from_pos < resolved {
                exec_sql(
                    db,
                    "UPDATE tags SET position = position - 1 WHERE id <> -1 AND parent = ? AND position > ? AND position <= ?",
                    &args,
                )
            } else {
                exec_sql(
                    db,
                    "UPDATE tags SET position = position + 1 WHERE id <> -1 AND parent = ? AND position < ? AND position >= ?",
                    &args,
                )
            }
        } else {
            let mut args1: Vec<SqlArg> = Vec::new();
            args1.push(SqlArg::Int(from_parent as i64));
            args1.push(SqlArg::Int(from_pos as i64));
            let r1 = exec_sql(
                db,
                "UPDATE tags SET position = position - 1 WHERE id <> -1 AND parent = ? AND position > ?",
                &args1,
            );
            match r1 {
                Ok(_) => {
                    let mut args2: Vec<SqlArg> = Vec::new();
                    args2.push(SqlArg::Int(to_parent_id as i64));
                    args2.push(SqlArg::Int(resolved as i64));
                    exec_sql(
                        db,
                        "UPDATE tags SET position = position + 1 WHERE id <> -1 AND parent = ? AND position >= ?",
                        &args2,
                    )
                },
                Err(e) => Err(e),
            }
        };
        match shift_res {
            Ok(_) => {},
            Err(e) => {
                let _ = exec_batch(db, "ROLLBACK;");
                return Err(Error::Store(e));
            },
        }
        let mut args3: Vec<SqlArg> = Vec::new();
        args3.push(SqlArg::Int(to_parent_id as i64));
        args3.push(SqlArg::Int(resolved as i64));
        args3.push(SqlArg::Int(tag_id as i64));
        match exec_sql(db, "UPDATE tags SET parent = ?, position = ? WHERE id = ?", &args3) {
            Ok(_) => {},
            Err(e) => {
                let _ = exec_batch(db, "ROLLBACK;");
                return Err(Error::Store(e));
            },
        }
        match exec_batch(db, "COMMIT;") {
            Ok(_) => {},
            Err(e) => {
                let _ = exec_batch(db, "ROLLBACK;");
                return Err(Error::Store(e));
            },
        }
        self.apply_reorder_tag(tag_id, to_parent_id, resolved);
        Ok(())
    }

    /// Associate a tag with an entry: refused with
    /// `TagAlreadyExistsForEntry` when the entry already carries it, and
    /// with `TagNotFound` when no such tag exists.
    pub fn add_tag_for_entry(
        &mut self,
        entry_id: EntryId,
        tag_id: TagId,
        db: &rusqlite::Connection,
    ) -> (r: Result<(), Error>)
        requires
            old(self).wf(),
            old(self).entries_view().contains_key(entry_id as int),
        ensures
            final(self).wf(),
            final(self).folders@ == old(self).folders@,
            final(self).tags@ == old(self).tags@,
            match r {
                Ok(_) => final(self).entries_view() == spec_set_entry_tags(
                    old(self).entries_view(),
                    entry_id as int,
                    old(self).entries_view()[entry_id as int].tags.insert(tag_id as int),
                ) && !old(self).entries_view()[entry_id as int].tags.contains(tag_id as int) && old(self).tags_view().contains_key(tag_id as int),
                Err(e) => final(self).entries@ == old(self).entries@ && (e
                    matches Error::TagAlreadyExistsForEntry(t, en) ==> (t == tag_id && en
                    == entry_id && old(self).entries_view()[entry_id as int].tags.contains(
                    tag_id as int,
                ))) && (e matches Error::TagNotFound(t) ==> (t == tag_id && !old(self).tags_view().contains_key(tag_id as int))),
            },
            old(self).entries_view()[entry_id as int].tags.contains(tag_id as int) ==> (r
                matches Err(e2) && e2 matches Error::TagAlreadyExistsForEntry(t2, en2) && t2
                == tag_id && en2 == entry_id),
            (!old(self).entries_view()[entry_id as int].tags.contains(tag_id as int) && !old(self).tags_view().contains_key(tag_id as int)) ==> (r matches Err(e2) && e2
                matches Error::TagNotFound(t2) && t2 == tag_id),
    {
        if self.entry_has_tag(entry_id, tag_id) {
            return Err(Error::TagAlreadyExistsForEntry(tag_id, entry_id));
        }
        if !self.tags.contains(tag_id) {
            return Err(Error::TagNotFound(tag_id));
        }
        let mut args: Vec<SqlArg> = Vec::new();
        args.push(SqlArg::Int(entry_id as i64));
        args.push(SqlArg::Int(tag_id as i64));
        match exec_sql(db, "INSERT INTO entry_tag (entry_id, tag_id) VALUES (?, ?)", &args) {
            Ok(_) => {},
            Err(e) => {
                return Err(Error::Store(e));
            },
        }
        self.apply_add_tag_for_entry(entry_id, tag_id);
        Ok(())
    }

    /// Drop a tag from an entry; an absent association is a no-op in the
    /// model and in the store alike.
    pub fn remove_tag_for_entry(
        &mut self,
        entry_id: EntryId,
        tag_id: TagId,
        db: &rusqlite::Connection,
    ) -> (r: Result<(), Error>)
        requires
            old(self).wf(),
            old(self).entries_view().contains_key(entry_id as int),
        ensures
            final(self).wf(),
            final(self).folders@ == old(self).folders@,
            final(self).tags@ == old(self).tags@,
            match r {
                Ok(_) => final(self).entries_view() == spec_set_entry_tags(
                    old(self).entries_view(),
                    entry_id as int,
                    old(self).entries_view()[entry_id as int].tags.remove(tag_id as int),
                ),
                Err(_) => final(self).entries@ == old(self).entries@,
            },
    {
        let mut args: Vec<SqlArg> = Vec::new();
        args.push(SqlArg::Int(entry_id as i64));
        args.push(SqlArg::Int(tag_id as i64));
        match exec_sql(db, "DELETE FROM entry_tag WHERE entry_id = ? AND tag_id = ?", &args) {
            Ok(_) => {},
            Err(e) => {
                return Err(Error::Store(e));
            },
        }
        self.apply_remove_tag_for_entry(entry_id, tag_id);
        Ok(())
    }
}

/// A queried id the model no longer holds: outside the id range, or
/// absent from the map.
pub open spec fn is_stale_id<V>(m: Map<int, V>, raw: i64) -> bool {
    raw < -0x8000_0000 || raw > 0x7fff_ffff || !m.contains_key(raw as int)
}

/// The queried live ids that are stale against the model — the decision
/// behind the deleted-row sweep, in queried order.
pub fn stale_ids<V>(m: &IdMap<V>, rows: &Vec<i64>) -> (r: Vec<i64>)
    requires
        m.inv(),
    ensures
        r@ == rows@.filter(|x: i64| is_stale_id(m@, x)),
{
    let ghost pred = |x: i64| is_stale_id(m@, x);
    let n = rows.len();
    let mut out: Vec<i64> = Vec::new();
    let mut i: usize = 0;
    while i < n
        invariant
            0 <= i <= n,
            n == rows@.len(),
            m.inv(),
            out@ =~= rows@.take(i as int).filter(pred),
        decreases n - i,
    {
        let raw = rows[i];
        let stale = raw < (-0x8000_0000i64) || raw > 0x7fff_ffffi64 || !m.contains(raw as i32);
        if stale {
            out.push(raw);
        }
        proof {
            reveal(Seq::filter);
            assert(stale == pred(rows@[i as int]));
            assert(rows@.take(i + 1).drop_last() =~= rows@.take(i as int));
            assert(rows@.take(i + 1).last() == rows@[i as int]);
            assert(out@ =~= rows@.take(i + 1).filter(pred));
        }
        i += 1;
    }
    proof {
        assert(rows@.take(n as int) =~= rows@);
    }
    out
}

impl DatabaseData {
    /// Mark every live store row whose id the model no longer holds as
    /// deleted, as the scan on open does for rows left behind since the
    /// last run. Only the store changes.
    pub fn sync_deleted(&self, db: &rusqlite::Connection) -> (r: Result<(), Error>)
        requires
            self.wf(),
    {
        let no_args: Vec<SqlArg> = Vec::new();
        let entry_rows = match crate::store::query_ids(
            db,
            "SELECT id FROM entries WHERE deleted IS NULL",
            &no_args,
        ) {
            Ok(v) => v,
            Err(e) => {
                return Err(Error::Store(e));
            },
        };
        let stale_entries = stale_ids(&self.entries, &entry_rows);
        let n = stale_entries.len();
        let mut i: usize = 0;
        while i < n
            invariant
                self.wf(),
                n == stale_entries@.len(),
                0 <= i <= n,
            decreases n - i,
        {
            let mut args: Vec<SqlArg> = Vec::new();
            args.push(SqlArg::Int(stale_entries[i]));
            match exec_sql(db, "UPDATE entries SET deleted = datetime('now') WHERE id = ?", &args) {
                Ok(_) => {},
                Err(e) => {
                    return Err(Error::Store(e));
                },
            }
            i += 1;
        }
        let folder_rows = match crate::store::query_ids(
            db,
            "SELECT id FROM folders WHERE deleted IS NULL",
            &no_args,
        ) {
            Ok(v) => v,
            Err(e) => {
                return Err(Error::Store(e));
            },
        };
        let stale_folders = stale_ids(&self.folders, &folder_rows);
        let m = stale_folders.len();
        let mut j: usize = 0;
        while j < m
            invariant
                self.wf(),
                m == stale_folders@.len(),
                0 <= j <= m,
            decreases m - j,
        {
            let mut args: Vec<SqlArg> = Vec::new();
            args.push(SqlArg::Int(stale_folders[j]));
            match exec_sql(db, "UPDATE folders SET deleted = datetime('now') WHERE id = ?", &args) {
                Ok(_) => {},
                Err(e) => {
                    return Err(Error::Store(e));
                },
            }
            j += 1;
        }
        Ok(())
    }
}

/// The position a reorder lands on: `-1` appends, which within the same
/// parent is the last slot (the tag itself already counts among the
/// children) and across parents one past the current children.
pub open spec fn resolved_reorder_pos(
    tv: Map<int, crate::tag::TagView>,
    id: int,
    parent: int,
    to_pos: int,
) -> int {
    if to_pos == -1 {
        if tv[id].parent == parent {
            tag_children(tv, parent).len() - 1
        } else {
            tag_children(tv, parent).len() as int
        }
    } else {
        to_pos
    }
}

/// Moving a tag onto its own current parent and position changes nothing.
pub proof fn lemma_reorder_noop(tv: Map<int, crate::tag::TagView>, id: int, p: int, pos: int)
    requires
        crate::tag::tags_wf(tv),
        tv.contains_key(id),
        id != ROOT_TAG_ID as int,
        tv[id].parent == p,
        tv[id].pos == pos,
    ensures
        spec_reorder_tag(tv, id, p, pos) =~= tv,
{
    assert forall|k: int| tv.contains_key(k) implies spec_reorder_tag(tv, id, p, pos)[k] =~= tv[k]
        by {}
}

} // verus!
