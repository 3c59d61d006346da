//! The bookkeeping of per-test databases: the statements that create and
//! drop them, and what is remembered of a cleanup run.
//!
//! Nothing here talks to a server. The caller executes the statements and
//! reports how each one ended.

use vstd::prelude::*;
use vstd::string::StringExecFns;

verus! {

/// How the drop of one database ended.
#[derive(Clone, Copy, Debug, PartialEq, Eq, Structural)]
pub enum DropOutcome {
    /// The database is gone.
    Dropped,
    /// The server refused; the database is taken to be still in use and is
    /// left for a later run.
    StillInUse,
    /// The connection failed; the run ends here.
    Failed,
}

/// The text of the statement that drops the database `db_name`.
pub open spec fn drop_database_text(db_name: Seq<char>) -> Seq<char> {
    "DROP DATABASE IF EXISTS "@ + db_name + ";"@
}

/// The text of the statement that creates the database `db_name`.
pub open spec fn create_database_text(db_name: Seq<char>) -> Seq<char> {
    "CREATE DATABASE "@ + db_name + ";"@
}

/// `count` placeholders with commas between them. An empty list is written
/// `NULL`, since the server takes no empty `in ()`.
pub open spec fn placeholder_list(count: nat) -> Seq<char>
    decreases count,
{
    if count == 0 {
        "NULL"@
    } else if count == 1 {
        "?"@
    } else {
        placeholder_list((count - 1) as nat) + ","@ + "?"@
    }
}

/// The text of the statement that removes `count` names from the
/// bookkeeping table.
pub open spec fn forget_databases_text(count: nat) -> Seq<char> {
    "DELETE\nFROM _sqlx_test.databases\nWHERE db_name in ("@ + placeholder_list(count) + ");\n"@
}

/// The statement that drops the database `db_name`.
pub fn drop_database_statement(db_name: &str) -> (r: String)
    ensures
        r@ == drop_database_text(db_name@),
{
    String::from_str("DROP DATABASE IF EXISTS ").concat(db_name).concat(";")
}

/// The statement that creates the database `db_name`.
pub fn create_database_statement(db_name: &str) -> (r: String)
    ensures
        r@ == create_database_text(db_name@),
{
    String::from_str("CREATE DATABASE ").concat(db_name).concat(";")
}

/// One `?` for each of `count` values, separated by commas, or `NULL` for
/// none.
pub fn placeholders(count: usize) -> (r: String)
    ensures
        r@ == placeholder_list(count as nat),
{
    if count == 0 {
        return String::from_str("NULL");
    }
    let mut list = String::from_str("?");
    let mut n: usize = 1;
    while n < count
        invariant
            1 <= n <= count,
            list@ == placeholder_list(n as nat),
        decreases count - n,
    {
        list.append(",");
        list.append("?");
        n = n + 1;
    }
    list
}

/// The statement that removes `count` names from the bookkeeping table,
/// with one placeholder for each name.
pub fn forget_databases_statement(count: usize) -> (r: String)
    ensures
        r@ == forget_databases_text(count as nat),
{
    let list = placeholders(count);
    String::from_str("DELETE\nFROM _sqlx_test.databases\nWHERE db_name in (").concat(
        list.as_str(),
    ).concat(");\n")
}

/// The names of the databases that a cleanup run has dropped so far, in
/// the order in which they were dropped.
pub struct Cleanup {
    dropped: Vec<String>,
}

impl Cleanup {
    /// The names dropped so far.
    pub closed spec fn names(self) -> Seq<Seq<char>> {
        self.dropped@.map_values(|name: String| name@)
    }

    /// A run that has dropped nothing yet.
    pub fn new() -> (c: Cleanup)
        ensures
            c.names() == Seq::<Seq<char>>::empty(),
    {
        let c = Cleanup { dropped: Vec::new() };
        assert(c.names() =~= Seq::<Seq<char>>::empty());
        c
    }

    /// Notes how the drop of `db_name` ended, and says whether the run goes
    /// on. A dropped database is remembered, one still in use is passed
    /// over, and a failure ends the run.
    pub fn record(&mut self, db_name: String, outcome: DropOutcome) -> (go_on: bool)
        ensures
            go_on == (outcome != DropOutcome::Failed),
            final(self).names() == if outcome == DropOutcome::Dropped {
                old(self).names().push(db_name@)
            } else {
                old(self).names()
            },
    {
        match outcome {
            DropOutcome::Dropped => {
                self.dropped.push(db_name);
                assert(self.names() =~= old(self).names().push(db_name@));
                true
            },
            DropOutcome::StillInUse => true,
            DropOutcome::Failed => false,
        }
    }

    /// How many databases were dropped.
    pub fn count(&self) -> (n: usize)
        ensures
            n == self.names().len(),
    {
        self.dropped.len()
    }

    /// The names that were dropped, in order.
    pub fn into_names(self) -> (names: Vec<String>)
        ensures
            names@.map_values(|name: String| name@) == self.names(),
    {
        self.dropped
    }
}

/// What a cleanup run reports: nothing if no database was listed, else the
/// number of databases it dropped.
pub fn cleanup_report(listed: usize, dropped: usize) -> (r: Option<usize>)
    ensures
        r == if listed == 0 {
            None
        } else {
            Some(dropped)
        },
{
    if listed == 0 {
        None
    } else {
        Some(dropped)
    }
}

} // verus!
