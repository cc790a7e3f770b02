//! Where the applied versions are read from: the name of the database in the
//! configuration document, and the address of the database.

use vstd::prelude::*;
use vstd::string::StringExecFns;
use crate::text::{decimal, decimal_string, same_text};

verus! {

/// A value of a configuration document, as far as this crate reads it: a
/// text, or a table of named values in the order of the document.  Whatever
/// else a document holds is `Other`.
#[derive(Debug)]
pub enum ConfigValue {
    Text(String),
    Table(Vec<(String, ConfigValue)>),
    Other,
}

/// The section of the configuration that holds the settings in use.
pub const SECTION: &'static str = "development";

/// The key of the database's name within a section.
pub const DATABASE_KEY: &'static str = "database";

/// The port on which the database listens.
pub const POSTGRES_PORT: usize = 5432;

/// The query that lists the applied versions in ascending order.
pub const APPLIED_VERSIONS_QUERY: &'static str =
    "SELECT version FROM schema_migrations ORDER BY version";

/// The value of the first entry named `key`.
pub open spec fn bound_in(entries: Seq<(String, ConfigValue)>, key: Seq<char>) -> Option<ConfigValue>
    decreases entries.len(),
{
    if entries.len() == 0 {
        None
    } else if entries[0].0@ == key {
        Some(entries[0].1)
    } else {
        bound_in(entries.drop_first(), key)
    }
}

/// The value that a table binds `key` to; none where the value is no table
/// or the table has no such key.
pub open spec fn member_of(value: ConfigValue, key: Seq<char>) -> Option<ConfigValue> {
    match value {
        ConfigValue::Table(entries) => bound_in(entries@, key),
        _ => None,
    }
}

/// The characters of a text; none where the value is no text.
pub open spec fn text_of(value: ConfigValue) -> Option<Seq<char>> {
    match value {
        ConfigValue::Text(s) => Some(s@),
        _ => None,
    }
}

/// The database that the documents name: the text at `SECTION`, then
/// `DATABASE_KEY`, of the first document.
pub open spec fn database_of(documents: Seq<ConfigValue>) -> Option<Seq<char>> {
    if documents.len() == 0 {
        None
    } else {
        match member_of(documents[0], SECTION@) {
            Some(section) => match member_of(section, DATABASE_KEY@) {
                Some(name) => text_of(name),
                None => None,
            },
            None => None,
        }
    }
}

impl ConfigValue {
    /// Looks `key` up in a table.
    pub fn member(&self, key: &str) -> (r: Option<&ConfigValue>)
        ensures
            r is Some <==> member_of(*self, key@) is Some,
            r matches Some(v) ==> member_of(*self, key@) == Some(*v),
    {
        match self {
            ConfigValue::Table(entries) => {
                let mut i: usize = 0;
                assert(entries@.skip(0) =~= entries@);
                while i < entries.len()
                    invariant
                        i <= entries.len(),
                        member_of(*self, key@) == bound_in(entries@, key@),
                        bound_in(entries@, key@) == bound_in(entries@.skip(i as int), key@),
                    decreases entries.len() - i,
                {
                    if same_text(entries[i].0.as_str(), key) {
                        assert(entries@.skip(i as int)[0] == entries@[i as int]);
                        return Some(&entries[i].1);
                    }
                    assert(entries@.skip(i as int).drop_first() =~= entries@.skip(i + 1));
                    i += 1;
                }
                None
            },
            _ => None,
        }
    }

    /// The text that this value is.
    pub fn as_text(&self) -> (r: Option<&str>)
        ensures
            r is Some <==> text_of(*self) is Some,
            r matches Some(s) ==> text_of(*self) == Some(s@),
    {
        match self {
            ConfigValue::Text(s) => Some(s.as_str()),
            _ => None,
        }
    }
}

/// The name of the database in the documents of a configuration; `None`
/// where there is no document or the first one names no database.
pub fn database_name(documents: &Vec<ConfigValue>) -> (r: Option<String>)
    ensures
        r.deep_view() == database_of(documents@),
{
    if documents.len() == 0 {
        return None;
    }
    match documents[0].member(SECTION) {
        Some(section) => match section.member(DATABASE_KEY) {
            Some(name) => match name.as_text() {
                Some(s) => Some(s.to_owned()),
                None => None,
            },
            None => None,
        },
        None => None,
    }
}

/// The address of the database `database` of the user `user` on this machine.
pub open spec fn url_of(user: Seq<char>, database: Seq<char>) -> Seq<char> {
    "postgres://"@ + user + "@localhost:"@ + decimal(POSTGRES_PORT as nat) + "/"@ + database
}

/// Writes the address of the database.
pub fn connection_url(user: &str, database: &str) -> (url: String)
    ensures
        url@ == url_of(user@, database@),
{
    let mut url = "postgres://".to_owned();
    url.append(user);
    url.append("@localhost:");
    let port = decimal_string(POSTGRES_PORT);
    url.append(port.as_str());
    url.append("/");
    url.append(database);
    url
}

} // verus!
