//! The descriptor parser: turns the text of one on-disk module descriptor
//! into a validated [`Module`] value, or fails with
//! [`crate::Error::DescriptorInvalid`].
//!
//! The TOML grammar itself is the `toml` crate's work and stays behind
//! trusted wrappers; everything the descriptor format means — which keys
//! are required, which default, and the non-emptiness of `id` and `name` —
//! is verified here.

use crate::Error;
use vstd::prelude::*;

verus! {

/// Metadata describing one module of the toolbox.
#[derive(Debug)]
pub struct Module {
    pub id: String,
    pub name: String,
    pub description: String,
    pub category: String,
    pub script_kind: String,
    pub enabled: bool,
    /// Path of the directory the descriptor was found in.
    pub root: String,
    /// Action name to command string, keys unique.
    pub actions: Vec<(String, String)>,
}

/// No two pairs share a key.
pub open spec fn distinct_keys(s: Seq<(String, String)>) -> bool {
    forall|i: int, j: int| 0 <= i < j < s.len() ==> s[i].0@ != s[j].0@
}

impl Module {
    /// A successfully parsed module has a non-empty identifier and name.
    pub open spec fn wf(self) -> bool {
        self.id@.len() > 0 && self.name@.len() > 0
    }
}

/// Rearranging action pairs cannot create a duplicate name: any sequence
/// with the same pair multiset as one with unique keys has unique keys.
pub proof fn lemma_distinct_keys_permutation(a: Seq<(String, String)>, b: Seq<(String, String)>)
    requires
        a.to_multiset() == b.to_multiset(),
        distinct_keys(a),
    ensures
        distinct_keys(b),
{
    broadcast use vstd::seq_lib::group_to_multiset_ensures;

    assert forall|i: int, j: int| 0 <= i < j < b.len() implies b[i].0@ != b[j].0@ by {
        if b[i].0@ == b[j].0@ {
            let x = b[i];
            let y = b[j];
            if x == y {
                vstd::seq_lib::to_multiset_remove(b, i);
                assert(b.remove(i)[j - 1] == x);
                assert(b.remove(i).contains(x));
                assert(b.remove(i).to_multiset().count(x) > 0);
                assert(a.to_multiset().count(x) >= 2);
                assert(a.contains(x));
                let i0 = choose|i0: int| 0 <= i0 < a.len() && a[i0] == x;
                vstd::seq_lib::to_multiset_remove(a, i0);
                assert(a.remove(i0).to_multiset().count(x) > 0);
                assert(a.remove(i0).contains(x));
                let j0 = choose|j0: int| 0 <= j0 < a.remove(i0).len() && a.remove(i0)[j0] == x;
                if j0 < i0 {
                    assert(a[j0] == x);
                } else {
                    assert(a[j0 + 1] == x);
                }
                assert(false);
            } else {
                assert(b.contains(x) && b.contains(y));
                assert(a.to_multiset().count(x) > 0 && a.to_multiset().count(y) > 0);
                assert(a.contains(x) && a.contains(y));
                let i0 = choose|i0: int| 0 <= i0 < a.len() && a[i0] == x;
                let j0 = choose|j0: int| 0 <= j0 < a.len() && a[j0] == y;
                assert(i0 != j0);
                assert(a[i0].0@ == a[j0].0@);
                assert(false);
            }
        }
    }
}

#[verifier::external_type_specification]
#[verifier::external_body]
pub struct ExTomlValue(toml::Value);

/// The value tree `toml::from_str` yields for this text: a function of
/// the text alone, `None` exactly when the text is not valid TOML.
pub uninterp spec fn toml_doc(text: Seq<char>) -> Option<toml::Value>;

/// The entries of a TOML value that is a table, in the map's key order;
/// `None` when the value is not a table.
pub uninterp spec fn table_entries_of(v: toml::Value) -> Option<Seq<(String, toml::Value)>>;

/// The characters of a TOML value that is a string; `None` otherwise.
pub uninterp spec fn str_of(v: toml::Value) -> Option<Seq<char>>;

/// The boolean of a TOML value that is a boolean; `None` otherwise.
pub uninterp spec fn bool_of(v: toml::Value) -> Option<bool>;

/// Relies on `toml::from_str`: parses a TOML document into its value
/// tree, which depends on the text alone; `None` exactly when the text
/// is not valid TOML.
#[verifier::external_body]
fn parse_toml(text: &str) -> (r: Option<toml::Value>)
    ensures
        r == toml_doc(text@),
{
    toml::from_str::<toml::Value>(text).ok()
}

/// Relies on `toml::Value::as_table`: `Some` exactly when the value is a
/// table, whose entries are handed out as owned copies, in the map's own
/// key order.  The keys of a `toml::map::Map` are unique.
#[verifier::external_body]
fn value_table_entries(v: &toml::Value) -> (r: Option<Vec<(String, toml::Value)>>)
    ensures
        (match r {
            Some(es) => table_entries_of(*v) == Some(es@) && distinct_entry_keys(es@),
            None => table_entries_of(*v) is None,
        }),
{
    v.as_table().map(|t| t.iter().map(|(k, x)| (k.clone(), x.clone())).collect())
}

/// No two table entries share a key.
pub open spec fn distinct_entry_keys(s: Seq<(String, toml::Value)>) -> bool {
    forall|i: int, j: int| 0 <= i < j < s.len() ==> s[i].0@ != s[j].0@
}

/// Relies on `toml::Value::as_str`: `Some`, with an owned copy, exactly
/// when the value is a string.
#[verifier::external_body]
fn value_as_str(v: &toml::Value) -> (r: Option<String>)
    ensures
        (match r {
            Some(s) => str_of(*v) == Some(s@),
            None => str_of(*v) is None,
        }),
{
    v.as_str().map(str::to_owned)
}

/// Relies on `toml::Value::as_bool`: `Some` exactly when the value is a
/// boolean.
#[verifier::external_body]
fn value_as_bool(v: &toml::Value) -> (r: Option<bool>)
    ensures
        r == bool_of(*v),
{
    v.as_bool()
}

/// The value under `key` among `entries`: the first entry carrying it
/// (keys are unique in a parsed table).
pub open spec fn spec_find(entries: Seq<(String, toml::Value)>, key: Seq<char>) -> Option<
    toml::Value,
>
    decreases entries.len(),
{
    if entries.len() == 0 {
        None
    } else if entries[0].0@ == key {
        Some(entries[0].1)
    } else {
        spec_find(entries.drop_first(), key)
    }
}

/// The entries of the descriptor document, when the text is a TOML table.
pub open spec fn descriptor_entries(text: Seq<char>) -> Option<Seq<(String, toml::Value)>> {
    match toml_doc(text) {
        None => None,
        Some(doc) => table_entries_of(doc),
    }
}

/// The string under a key that must be present; `None` when it is absent
/// or of another type.
pub open spec fn required_string(entries: Seq<(String, toml::Value)>, key: Seq<char>) -> Option<
    Seq<char>,
> {
    match spec_find(entries, key) {
        None => None,
        Some(v) => str_of(v),
    }
}

/// The key is absent or holds a string.
pub open spec fn optional_string_ok(entries: Seq<(String, toml::Value)>, key: Seq<char>) -> bool {
    match spec_find(entries, key) {
        None => true,
        Some(v) => str_of(v) is Some,
    }
}

/// The string under a key, empty when the key is absent.
pub open spec fn optional_string_val(entries: Seq<(String, toml::Value)>, key: Seq<char>) -> Seq<
    char,
> {
    match spec_find(entries, key) {
        None => Seq::empty(),
        Some(v) => match str_of(v) {
            Some(s) => s,
            None => Seq::empty(),
        },
    }
}

/// The key is absent or holds a boolean.
pub open spec fn enabled_ok(entries: Seq<(String, toml::Value)>, key: Seq<char>) -> bool {
    match spec_find(entries, key) {
        None => true,
        Some(v) => bool_of(v) is Some,
    }
}

/// The boolean under a key, `false` when the key is absent.
pub open spec fn enabled_val(entries: Seq<(String, toml::Value)>, key: Seq<char>) -> bool {
    match spec_find(entries, key) {
        None => false,
        Some(v) => match bool_of(v) {
            Some(b) => b,
            None => false,
        },
    }
}

/// The key is absent or holds a table whose values are all strings.
pub open spec fn actions_ok(entries: Seq<(String, toml::Value)>, key: Seq<char>) -> bool {
    match spec_find(entries, key) {
        None => true,
        Some(v) => match table_entries_of(v) {
            None => false,
            Some(pairs) => forall|i: int|
                0 <= i < pairs.len() ==> str_of((#[trigger] pairs[i]).1) is Some,
        },
    }
}

/// The action pairs under a key, empty when the key is absent.
pub open spec fn actions_val(entries: Seq<(String, toml::Value)>, key: Seq<char>) -> Seq<
    (Seq<char>, Seq<char>),
> {
    match spec_find(entries, key) {
        None => Seq::empty(),
        Some(v) => match table_entries_of(v) {
            None => Seq::empty(),
            Some(pairs) => pairs.map_values(
                |p: (String, toml::Value)|
                    (
                        p.0@,
                        match str_of(p.1) {
                            Some(s) => s,
                            None => Seq::<char>::empty(),
                        },
                    ),
            ),
        },
    }
}

/// The action pairs as character sequences.
pub open spec fn action_views(actions: Seq<(String, String)>) -> Seq<(Seq<char>, Seq<char>)> {
    actions.map_values(|p: (String, String)| (p.0@, p.1@))
}

/// Whether `text` meets every rule of the descriptor format: a TOML
/// table whose `id` and `name` are non-empty strings, whose
/// `description`, `category`, `script_kind` and `enabled` have the right
/// type where present, and whose `actions`, where present, is a table of
/// strings.
pub open spec fn descriptor_ok(text: Seq<char>) -> bool {
    match descriptor_entries(text) {
        None => false,
        Some(entries) => {
            &&& (required_string(entries, "id"@) matches Some(id) && id.len() > 0)
            &&& (required_string(entries, "name"@) matches Some(n) && n.len() > 0)
            &&& optional_string_ok(entries, "description"@)
            &&& optional_string_ok(entries, "category"@)
            &&& optional_string_ok(entries, "script_kind"@)
            &&& enabled_ok(entries, "enabled"@)
            &&& actions_ok(entries, "actions"@)
        },
    }
}

/// `m` is, field for field, the module `text` describes, rooted at `dir`.
pub open spec fn descriptor_module(text: Seq<char>, dir: Seq<char>, m: Module) -> bool {
    &&& descriptor_entries(text) matches Some(entries)
    &&& required_string(entries, "id"@) == Some(m.id@)
    &&& required_string(entries, "name"@) == Some(m.name@)
    &&& m.description@ == optional_string_val(entries, "description"@)
    &&& m.category@ == optional_string_val(entries, "category"@)
    &&& m.script_kind@ == optional_string_val(entries, "script_kind"@)
    &&& m.enabled == enabled_val(entries, "enabled"@)
    &&& action_views(m.actions@) == actions_val(entries, "actions"@)
    &&& m.root@ == dir
}

/// The value stored under `key`, if any entry carries it: the executable
/// side of `spec_find`.
fn find_entry<'a>(entries: &'a Vec<(String, toml::Value)>, key: &str) -> (r: Option<
    &'a toml::Value,
>)
    ensures
        (match r {
            Some(v) => spec_find(entries@, key@) == Some(*v),
            None => spec_find(entries@, key@) is None,
        }),
{
    let n = entries.len();
    let mut i: usize = 0;
    proof {
        assert(entries@.skip(0) =~= entries@);
    }
    loop
        invariant
            i <= n,
            n == entries@.len(),
            spec_find(entries@, key@) == spec_find(entries@.skip(i as int), key@),
        decreases n - i,
    {
        if i >= n {
            assert(entries@.skip(i as int).len() == 0);
            return None;
        }
        assert(entries@.skip(i as int)[0] == entries@[i as int]);
        if crate::order::str_eq(entries[i].0.as_str(), key) {
            return Some(&entries[i].1);
        }
        proof {
            assert(entries@.skip(i as int).drop_first() =~= entries@.skip(i as int + 1));
        }
        i = i + 1;
    }
}

/// Checks and assembles the plain field values read out of a descriptor.
///
/// This is the descriptor format's whole decision: `id` and `name` must be
/// present (`Some`) and non-empty; every other field already carries its
/// default.  The error names the directory `dir` the descriptor came from.
pub fn assemble_module(
    id: Option<String>,
    name: Option<String>,
    description: String,
    category: String,
    script_kind: String,
    enabled: bool,
    actions: Vec<(String, String)>,
    dir: &str,
) -> (r: Result<Module, Error>)
    ensures
        (match r {
            Ok(m) => {
                &&& id matches Some(i) && m.id == i && i@.len() > 0
                &&& name matches Some(n) && m.name == n && n@.len() > 0
                &&& m.description == description
                &&& m.category == category
                &&& m.script_kind == script_kind
                &&& m.enabled == enabled
                &&& m.actions == actions
                &&& m.root@ == dir@
                &&& m.wf()
            },
            Err(e) => {
                &&& e matches Error::DescriptorInvalid(p) && p@ == dir@
                &&& !((id matches Some(i) && i@.len() > 0) && (name matches Some(n) && n@.len()
                    > 0))
            },
        }),
{
    let id = match id {
        Some(s) => s,
        None => {
            return Err(Error::DescriptorInvalid(dir.to_owned()));
        },
    };
    let name = match name {
        Some(s) => s,
        None => {
            return Err(Error::DescriptorInvalid(dir.to_owned()));
        },
    };
    if id.as_str().is_empty() || name.as_str().is_empty() {
        return Err(Error::DescriptorInvalid(dir.to_owned()));
    }
    Ok(Module { id, name, description, category, script_kind, enabled, root: dir.to_owned(), actions })
}

/// A string field that defaults to empty when `key` is absent; an entry
/// of another type is a format error.
fn optional_string_field(entries: &Vec<(String, toml::Value)>, key: &str) -> (r: Result<
    String,
    (),
>)
    ensures
        (r is Ok) == optional_string_ok(entries@, key@),
        r matches Ok(s) ==> s@ == optional_string_val(entries@, key@),
{
    match find_entry(entries, key) {
        None => Ok(String::new()),
        Some(v) => match value_as_str(v) {
            Some(s) => Ok(s),
            None => Err(()),
        },
    }
}

/// A string field that must be present; `None` when it is absent or of
/// another type.
fn required_string_field(entries: &Vec<(String, toml::Value)>, key: &str) -> (r: Option<String>)
    ensures
        (match r {
            Some(s) => required_string(entries@, key@) == Some(s@),
            None => required_string(entries@, key@) is None,
        }),
{
    match find_entry(entries, key) {
        None => None,
        Some(v) => value_as_str(v),
    }
}

/// The action table of a descriptor as name/command pairs: defaults to
/// empty when `key` is absent; an entry that is not a table of strings is
/// a format error.  The pairs keep the unique keys of the table, in
/// order.
fn actions_field(entries: &Vec<(String, toml::Value)>, key: &str) -> (r: Result<
    Vec<(String, String)>,
    (),
>)
    ensures
        (r is Ok) == actions_ok(entries@, key@),
        r matches Ok(a) ==> distinct_keys(a@) && action_views(a@) == actions_val(
            entries@,
            key@,
        ),
{
    let v = match find_entry(entries, key) {
        None => {
            let empty: Vec<(String, String)> = Vec::new();
            proof {
                assert(action_views(empty@) =~= actions_val(entries@, key@));
            }
            return Ok(empty);
        },
        Some(v) => v,
    };
    let pairs = match value_table_entries(v) {
        None => {
            return Err(());
        },
        Some(p) => p,
    };
    let mut out: Vec<(String, String)> = Vec::new();
    let n = pairs.len();
    let mut i: usize = 0;
    loop
        invariant
            i <= n,
            n == pairs@.len(),
            out@.len() == i,
            distinct_entry_keys(pairs@),
            spec_find(entries@, key@) matches Some(vv) && table_entries_of(vv) == Some(pairs@),
            forall|j: int|
                0 <= j < i ==> str_of((#[trigger] pairs@[j]).1) is Some && out@[j].0@
                    == pairs@[j].0@ && Some(out@[j].1@) == str_of(pairs@[j].1),
        decreases n - i,
    {
        if i >= n {
            assert forall|x: int, y: int| 0 <= x < y < out@.len() implies out@[x].0@
                != out@[y].0@ by {
                assert(out@[x].0@ == pairs@[x].0@);
                assert(out@[y].0@ == pairs@[y].0@);
            }
            assert(distinct_keys(out@));
            assert(actions_ok(entries@, key@));
            proof {
                let vals = actions_val(entries@, key@);
                assert(action_views(out@) =~= vals) by {
                    assert(forall|j: int|
                        0 <= j < n ==> action_views(out@)[j] == (#[trigger] out@[j].0@, out@[j].1@));
                }
            }
            return Ok(out);
        }
        let command = match value_as_str(&pairs[i].1) {
            Some(s) => s,
            None => {
                assert(!actions_ok(entries@, key@));
                return Err(());
            },
        };
        out.push((pairs[i].0.clone(), command));
        i = i + 1;
    }
}

/// Parses the text of one descriptor found in directory `dir`.
///
/// The descriptor must be a TOML table whose `id` and `name` are
/// non-empty strings; `description`, `category` and `script_kind` default
/// to empty strings, `enabled` to `false`, and `actions` — a table of
/// command strings with unique names — to empty.  It succeeds exactly on
/// the texts `descriptor_ok` admits, yielding field for field the module
/// the text describes; any other shape fails with
/// [`Error::DescriptorInvalid`] carrying `dir`.
pub fn parse_descriptor(text: &str, dir: &str) -> (r: Result<Module, Error>)
    ensures
        (r is Ok) == descriptor_ok(text@),
        r matches Ok(m) ==> descriptor_module(text@, dir@, m) && m.wf() && distinct_keys(
            m.actions@,
        ),
        r matches Err(e) ==> e matches Error::DescriptorInvalid(p) && p@ == dir@,
{
    let doc = match parse_toml(text) {
        None => {
            return Err(Error::DescriptorInvalid(dir.to_owned()));
        },
        Some(v) => v,
    };
    let entries = match value_table_entries(&doc) {
        None => {
            return Err(Error::DescriptorInvalid(dir.to_owned()));
        },
        Some(es) => es,
    };
    let id = required_string_field(&entries, "id");
    let name = required_string_field(&entries, "name");
    let description = match optional_string_field(&entries, "description") {
        Ok(s) => s,
        Err(()) => {
            return Err(Error::DescriptorInvalid(dir.to_owned()));
        },
    };
    let category = match optional_string_field(&entries, "category") {
        Ok(s) => s,
        Err(()) => {
            return Err(Error::DescriptorInvalid(dir.to_owned()));
        },
    };
    let script_kind = match optional_string_field(&entries, "script_kind") {
        Ok(s) => s,
        Err(()) => {
            return Err(Error::DescriptorInvalid(dir.to_owned()));
        },
    };
    let enabled = match find_entry(&entries, "enabled") {
        None => false,
        Some(v) => match value_as_bool(v) {
            Some(b) => b,
            None => {
                return Err(Error::DescriptorInvalid(dir.to_owned()));
            },
        },
    };
    let actions = match actions_field(&entries, "actions") {
        Ok(a) => a,
        Err(()) => {
            return Err(Error::DescriptorInvalid(dir.to_owned()));
        },
    };
    proof {
        assert(descriptor_entries(text@) == Some(entries@));
        assert(enabled_ok(entries@, "enabled"@));
        assert(enabled == enabled_val(entries@, "enabled"@));
        assert(descriptor_ok(text@) == ((required_string(entries@, "id"@) matches Some(s)
            && s.len() > 0) && (required_string(entries@, "name"@) matches Some(s2) && s2.len()
            > 0)));
    }
    assemble_module(id, name, description, category, script_kind, enabled, actions, dir)
}

} // verus!
