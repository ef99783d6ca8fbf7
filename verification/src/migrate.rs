use vstd::prelude::*;

verus! {

/// The tagging tools a catalog can be imported from.
pub enum MigrateFrom {
    Billfish,
}

/// A line of the migration report.
pub enum MigratorLog {
    Warn(String),
    Error(String),
}

/// What a migration run reports back: whether it went through, and the
/// log lines gathered on the way. A warning leaves `success` standing; an
/// error clears it.
pub struct MigratorResult {
    pub success: bool,
    pub logs: Vec<MigratorLog>,
}

/// The number of logged errors among the lines.
pub open spec fn error_count(logs: Seq<MigratorLog>) -> int
    decreases logs.len(),
{
    if logs.len() == 0 {
        0
    } else {
        error_count(logs.drop_last()) + (if logs.last() is Error {
            1int
        } else {
            0int
        })
    }
}

impl MigratorResult {
    pub fn new() -> (r: MigratorResult)
        ensures
            r.success == true,
            r.logs@.len() == 0,
    {
        MigratorResult { success: true, logs: Vec::new() }
    }

    /// Record a warning; the run still counts as successful.
    pub fn warn(&mut self, msg: String)
        ensures
            final(self).success == old(self).success,
            final(self).logs@ == old(self).logs@.push(MigratorLog::Warn(msg)),
    {
        self.logs.push(MigratorLog::Warn(msg));
    }

    /// Record an error; the run no longer counts as successful.
    pub fn error(&mut self, msg: String)
        ensures
            final(self).success == false,
            final(self).logs@ == old(self).logs@.push(MigratorLog::Error(msg)),
    {
        self.success = false;
        self.logs.push(MigratorLog::Error(msg));
    }
}

/// The importer for the foreign tagging tool's database; the read-only
/// translation itself runs outside the library and drives the catalog
/// through its public operations.
pub struct BillfishMigrator {}

/// The relative path of each foreign folder row, rebuilt by walking the
/// parent ids up to the foreign root (id 0). A row whose parent chain
/// breaks off, or exceeds the row count, yields `None` and is skipped
/// with a warning.
pub fn billfish_folder_path(rows: &Vec<(i32, i32, String)>, folder_id: i32) -> (r: Option<
    Vec<String>,
>) {
    let n = rows.len();
    let mut rev: Vec<String> = Vec::new();
    let mut cur = folder_id;
    let mut fuel = n;
    while cur != 0 && fuel > 0
        invariant
            fuel <= n,
        decreases fuel,
    {
        let mut found = false;
        let mut i: usize = 0;
        while i < n && !found
            invariant
                0 <= i <= n,
                n == rows@.len(),
            decreases n - i,
        {
            if rows[i].0 == cur {
                rev.push(rows[i].2.clone());
                cur = rows[i].1;
                found = true;
            }
            i += 1;
        }
        if !found {
            return None;
        }
        fuel -= 1;
    }
    if cur != 0 {
        return None;
    }
    let m = rev.len();
    let mut out: Vec<String> = Vec::new();
    let mut i: usize = 0;
    while i < m
        invariant
            0 <= i <= m,
            m == rev@.len(),
        decreases m - i,
    {
        out.push(rev[m - 1 - i].clone());
        i += 1;
    }
    Some(out)
}

} // verus!
