//! The history kept in the database: a table of the versions applied, in the metadata
//! schema, and the statements that read and write it.
use vstd::prelude::*;
#[allow(unused_imports)]
use vstd::view::View as ViewTrait;

verus! {

pub struct DBHistory {
    metadata_schema: String,
}

impl DBHistory {
    pub fn new(metadata_schema: &str) -> (r: DBHistory)
        ensures
            r.metadata_schema()@ == metadata_schema@,
    {
        DBHistory { metadata_schema: metadata_schema.to_owned() }
    }

    pub closed spec fn metadata_schema(&self) -> String {
        self.metadata_schema
    }

    /// The schema that holds the table of versions.
    pub fn get_metadata_schema(&self) -> (r: &String)
        ensures
            r@ == self.metadata_schema()@,
    {
        &self.metadata_schema
    }
}

/// The statement that creates the metadata schema.
pub fn format_create_schema_sql(schema: &str) -> (r: String)
    ensures
        r@ == "CREATE SCHEMA "@ + schema@,
{
    let mut s = "CREATE SCHEMA ".to_owned();
    s.append(schema);
    s
}

/// The statement that records a version as applied.
pub fn format_insert_version_sql(schema: &str) -> (r: String)
    ensures
        r@ == "INSERT INTO "@ + schema@ + ".version (name, previous, changes, up, down) VALUES ($1, $2, $3::TEXT::JSON, $4, $5)"@,
{
    let mut s = "INSERT INTO ".to_owned();
    s.append(schema);
    s.append(".version (name, previous, changes, up, down) VALUES ($1, $2, $3::TEXT::JSON, $4, $5)");
    s
}

/// The query for the version applied last.
pub fn format_current_version_sql(schema: &str) -> (r: String)
    ensures
        r@ == "SELECT name, previous, changes::TEXT, up, down, applied_at FROM "@ + schema@ + ".version ORDER BY applied_order DESC LIMIT 1"@,
{
    let mut s = "SELECT name, previous, changes::TEXT, up, down, applied_at FROM ".to_owned();
    s.append(schema);
    s.append(".version ORDER BY applied_order DESC LIMIT 1");
    s
}

/// The statement that forgets an applied version.
pub fn format_delete_version_sql(schema: &str) -> (r: String)
    ensures
        r@ == "DELETE FROM "@ + schema@ + ".version WHERE name = $1"@,
{
    let mut s = "DELETE FROM ".to_owned();
    s.append(schema);
    s.append(".version WHERE name = $1");
    s
}

/// The query for the versions applied after one order and up to another, latest first.
pub fn format_get_downward_range_sql(schema: &str) -> (r: String)
    ensures
        r@ == "SELECT name FROM "@ + schema@ + ".version WHERE $1 >= applied_order AND applied_order > $2 ORDER BY applied_order DESC"@,
{
    let mut s = "SELECT name FROM ".to_owned();
    s.append(schema);
    s.append(".version WHERE $1 >= applied_order AND applied_order > $2 ORDER BY applied_order DESC");
    s
}

/// The query for the order in which a version was applied.
pub fn format_get_applied_order_sql(schema: &str) -> (r: String)
    ensures
        r@ == "SELECT applied_order FROM "@ + schema@ + ".version WHERE name = $1"@,
{
    let mut s = "SELECT applied_order FROM ".to_owned();
    s.append(schema);
    s.append(".version WHERE name = $1");
    s
}

/// The query for an applied version.
pub fn format_get_version_sql(schema: &str) -> (r: String)
    ensures
        r@ == "SELECT name, previous, changes::TEXT, up, down FROM "@ + schema@ + ".version WHERE name = $1"@,
{
    let mut s = "SELECT name, previous, changes::TEXT, up, down FROM ".to_owned();
    s.append(schema);
    s.append(".version WHERE name = $1");
    s
}

/// The statement that creates the table of versions.
pub fn format_create_table_sql(schema: &str) -> (r: String)
    ensures
        r@ == "CREATE TABLE "@ + schema@ + ".version (\n    name VARCHAR(128) NOT NULL PRIMARY KEY,\n    previous VARCHAR(128) REFERENCES "@ + schema@ + ".version(name),\n    changes JSON NOT NULL,\n    up TEXT[] NOT NULL,\n    down TEXT[] NOT NULL,\n    applied_at TIMESTAMP NOT NULL DEFAULT now(),\n    applied_order SERIAL NOT NULL UNIQUE\n)"@,
{
    let mut s = "CREATE TABLE ".to_owned();
    s.append(schema);
    s.append(".version (\n    name VARCHAR(128) NOT NULL PRIMARY KEY,\n    previous VARCHAR(128) REFERENCES ");
    s.append(schema);
    s.append(".version(name),\n    changes JSON NOT NULL,\n    up TEXT[] NOT NULL,\n    down TEXT[] NOT NULL,\n    applied_at TIMESTAMP NOT NULL DEFAULT now(),\n    applied_order SERIAL NOT NULL UNIQUE\n)");
    s
}

/// What refuses a request on the history kept in the database.
#[derive(Debug, PartialEq)]
pub enum DBHistoryError {
    NotInitialized,
    NoMatchingVersion(String),
}

pub ghost enum DBHistoryErrorView {
    NotInitialized,
    NoMatchingVersion(Seq<char>),
}

impl vstd::view::View for DBHistoryError {
    type V = DBHistoryErrorView;

    open spec fn view(&self) -> DBHistoryErrorView {
        match self {
            DBHistoryError::NotInitialized => DBHistoryErrorView::NotInitialized,
            DBHistoryError::NoMatchingVersion(v) => DBHistoryErrorView::NoMatchingVersion(v@),
        }
    }
}

pub open spec fn db_history_message(e: DBHistoryErrorView) -> Seq<char> {
    match e {
        DBHistoryErrorView::NotInitialized => "database history is not initialized"@,
        DBHistoryErrorView::NoMatchingVersion(v) => "no version matching "@ + seq!['"'] + v + seq!['"'] + " found"@,
    }
}

impl DBHistoryError {
    pub fn message(&self) -> (r: String)
        ensures
            r@ == db_history_message(self@),
    {
        match self {
            DBHistoryError::NotInitialized => "database history is not initialized".to_owned(),
            DBHistoryError::NoMatchingVersion(v) => {
                let mut s = "no version matching \"".to_owned();
                s.append(v.as_str());
                s.append("\" found");
                proof {
                    reveal_strlit("no version matching \"");
                    reveal_strlit("no version matching ");
                    reveal_strlit("\" found");
                    reveal_strlit(" found");
                }
                assert(s@ =~= "no version matching "@ + seq!['"'] + v@ + seq!['"'] + " found"@);
                s
            },
        }
    }
}

/// The orders in which the versions `from` and `to` were applied, when both were: the
/// range of versions to revert runs from the first down to just above the second.
pub fn check_downward_range(from: &str, to: &str, from_order: Option<i32>, to_order: Option<i32>) -> (r: Result<(i32, i32), DBHistoryError>)
    ensures
        match (from_order, to_order) {
            (None, _) => r is Err && r->Err_0@ == DBHistoryErrorView::NoMatchingVersion(from@),
            (Some(_), None) => r is Err && r->Err_0@ == DBHistoryErrorView::NoMatchingVersion(to@),
            (Some(a), Some(b)) => r == Ok::<(i32, i32), DBHistoryError>((a, b)),
        },
{
    match (from_order, to_order) {
        (None, _) => Err(DBHistoryError::NoMatchingVersion(from.to_owned())),
        (Some(_), None) => Err(DBHistoryError::NoMatchingVersion(to.to_owned())),
        (Some(a), Some(b)) => Ok((a, b)),
    }
}

} // verus!
