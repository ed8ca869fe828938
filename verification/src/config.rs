//! The configuration: its keys and their kinds, reading and changing values
//! by dotted key in a configuration document, and the settings the tool
//! takes from it. A document is held as a `Json` value: tables as objects,
//! integers and floats as numbers (in their TOML text), strings, booleans
//! and arrays as such.
use vstd::prelude::*;

use crate::json::{
    items_view, json_get, compact_text, lemma_members_get_first, lemma_view_parts, member_index, members_get,
    members_insert, object_insert, parse_i64, parse_i64_spec, Json, JsonV,
};
use crate::task::opt_view;
use crate::text::{cat3, chars_of, owned, push_str, split, split_char, str_eq};

verus! {

/// The configuration file that `dex init` writes.
pub const DEFAULT_CONFIG: &'static str = "# dex configuration file

[storage]
engine = \"file\"

# File storage settings
[storage.file]
# path = \"/custom/path\"  # Uncomment to set custom storage path

# GitHub sync (optional - sync tasks with GitHub Issues)
# Note: owner/repo are automatically inferred from your git remote
# [sync.github]
# enabled = true
# token_env = \"GITHUB_TOKEN\"    # Environment variable containing GitHub token (or use gh CLI)
# label_prefix = \"dex\"           # Prefix for dex-related labels

# Shortcut sync (optional - sync tasks with Shortcut Stories)
# [sync.shortcut]
# enabled = true
# token_env = \"SHORTCUT_API_TOKEN\"  # Environment variable containing Shortcut API token
# team = \"engineering\"               # Team mention name or UUID (required)
# workspace = \"mycompany\"            # Workspace slug (auto-detected if not set)
# label = \"dex\"                      # Label for dex stories
";

/// The kind of value a key takes.
pub enum Kind {
    String,
    Bool,
    Number,
    /// One of the listed words.
    Enum(Vec<&'static str>),
}

/// A configuration key and its kind.
pub struct KeySpec {
    pub key: &'static str,
    pub kind: Kind,
}

/// The keys, in the order `config --list` shows them.
pub open spec fn schema_keys() -> Seq<Seq<char>> {
    seq![
        "storage.engine"@,
        "storage.file.path"@,
        "storage.file.mode"@,
        "sync.github.enabled"@,
        "sync.github.token_env"@,
        "sync.github.label_prefix"@,
        "sync.github.auto.on_change"@,
        "sync.github.auto.max_age"@,
        "sync.shortcut.enabled"@,
        "sync.shortcut.token_env"@,
        "sync.shortcut.team"@,
        "sync.shortcut.workspace"@,
        "sync.shortcut.workflow"@,
        "sync.shortcut.label"@,
        "sync.shortcut.auto.on_change"@,
        "sync.shortcut.auto.max_age"@,
        "archive.auto"@,
        "archive.age_days"@,
        "archive.keep_recent"@,
    ]
}

/// The kind of the `i`-th key: 0 string, 1 boolean, 2 number, 3 one of
/// `enum_options(i)`.
pub open spec fn schema_kind(i: int) -> int {
    if i == 0 || i == 2 {
        3
    } else if i == 3 || i == 6 || i == 8 || i == 14 || i == 16 {
        1
    } else if i == 17 || i == 18 {
        2
    } else {
        0
    }
}

/// The words an enumerated key accepts.
pub open spec fn enum_options(i: int) -> Seq<Seq<char>> {
    if i == 0 {
        seq!["file"@]
    } else if i == 2 {
        seq!["in-repo"@, "centralized"@]
    } else {
        Seq::empty()
    }
}

/// How many keys there are.
pub const SCHEMA_LEN: usize = 19;

/// The kind of a key, as a spec number.
pub open spec fn kind_code(k: Kind) -> int {
    match k {
        Kind::String => 0,
        Kind::Bool => 1,
        Kind::Number => 2,
        Kind::Enum(_) => 3,
    }
}

/// The `i`-th key of the schema and its kind.
pub fn schema_entry(i: usize) -> (r: KeySpec)
    requires
        i < SCHEMA_LEN,
    ensures
        r.key@ == schema_keys()[i as int],
        kind_code(r.kind) == schema_kind(i as int),
        r.kind matches Kind::Enum(opts) ==> opts@.map_values(|o: &str| o@) == enum_options(i as int),
{
    let key = if i == 0 {
        "storage.engine"
    } else if i == 1 {
        "storage.file.path"
    } else if i == 2 {
        "storage.file.mode"
    } else if i == 3 {
        "sync.github.enabled"
    } else if i == 4 {
        "sync.github.token_env"
    } else if i == 5 {
        "sync.github.label_prefix"
    } else if i == 6 {
        "sync.github.auto.on_change"
    } else if i == 7 {
        "sync.github.auto.max_age"
    } else if i == 8 {
        "sync.shortcut.enabled"
    } else if i == 9 {
        "sync.shortcut.token_env"
    } else if i == 10 {
        "sync.shortcut.team"
    } else if i == 11 {
        "sync.shortcut.workspace"
    } else if i == 12 {
        "sync.shortcut.workflow"
    } else if i == 13 {
        "sync.shortcut.label"
    } else if i == 14 {
        "sync.shortcut.auto.on_change"
    } else if i == 15 {
        "sync.shortcut.auto.max_age"
    } else if i == 16 {
        "archive.auto"
    } else if i == 17 {
        "archive.age_days"
    } else {
        "archive.keep_recent"
    };
    let kind = if i == 0 {
        let mut v: Vec<&'static str> = Vec::new();
        v.push("file");
        assert(v@.map_values(|o: &str| o@) =~= enum_options(0));
        Kind::Enum(v)
    } else if i == 2 {
        let mut v: Vec<&'static str> = Vec::new();
        v.push("in-repo");
        v.push("centralized");
        assert(v@.map_values(|o: &str| o@) =~= enum_options(2));
        Kind::Enum(v)
    } else if i == 3 || i == 6 || i == 8 || i == 14 || i == 16 {
        Kind::Bool
    } else if i == 17 || i == 18 {
        Kind::Number
    } else {
        Kind::String
    };
    KeySpec { key, kind }
}

/// The key's position in the schema, if it is a key.
pub open spec fn schema_index(key: Seq<char>) -> Option<int> {
    if exists|i: int| 0 <= i < schema_keys().len() && schema_keys()[i] == key {
        Some(choose|i: int| 0 <= i < schema_keys().len() && schema_keys()[i] == key)
    } else {
        None
    }
}

/// The schema entry of a key; an unknown key is refused.
pub fn spec(key: &str) -> (r: Result<KeySpec, String>)
    ensures
        match r {
            Ok(s) => s.key@ == key@ && exists|i: int|
                0 <= i < schema_keys().len() && schema_keys()[i] == key@ && kind_code(s.kind) == schema_kind(i) && (
                s.kind matches Kind::Enum(opts) ==> opts@.map_values(|o: &str| o@) == enum_options(i)),
            Err(m) => (forall|i: int| 0 <= i < schema_keys().len() ==> schema_keys()[i] != key@) && m@ == "Unknown config key: "@
                + key@ + "\nRun dex config --help for available keys."@,
        },
{
    let mut i: usize = 0;
    while i < SCHEMA_LEN
        invariant
            i <= SCHEMA_LEN,
            schema_keys().len() == SCHEMA_LEN,
            forall|k: int| 0 <= k < i ==> schema_keys()[k] != key@,
        decreases SCHEMA_LEN - i,
    {
        let entry = schema_entry(i);
        if str_eq(entry.key, key) {
            return Ok(entry);
        }
        i = i + 1;
    }
    let mut m = owned("Unknown config key: ");
    push_str(&mut m, key);
    push_str(&mut m, "\nRun dex config --help for available keys.");
    Err(m)
}

/// The value at a path of keys, each a member of the table before.
pub open spec fn path_get(v: JsonV, parts: Seq<Seq<char>>) -> Option<JsonV>
    decreases parts.len(),
{
    if parts.len() == 0 {
        Some(v)
    } else {
        match json_get(v, parts[0]) {
            Some(c) => path_get(c, parts.drop_first()),
            None => None,
        }
    }
}

/// The value of a dotted key in a document.
pub open spec fn lookup_spec(root: JsonV, key: Seq<char>) -> Option<JsonV> {
    path_get(root, split_char(key, '.'))
}

fn get_path<'a>(v: &'a Json, parts: &Vec<String>, i: usize) -> (r: Option<&'a Json>)
    requires
        i <= parts.len(),
    ensures
        match r {
            Some(x) => path_get(v@, parts.deep_view().skip(i as int)) == Some(x@),
            None => path_get(v@, parts.deep_view().skip(i as int)) is None,
        },
    decreases parts.len() - i,
{
    if i == parts.len() {
        assert(parts.deep_view().skip(i as int) =~= Seq::<Seq<char>>::empty());
        return Some(v);
    }
    assert(parts.deep_view().skip(i as int)[0] == parts[i as int]@);
    assert(parts.deep_view().skip(i as int).drop_first() =~= parts.deep_view().skip(i + 1));
    match v.get(parts[i].as_str()) {
        Some(c) => get_path(c, parts, i + 1),
        None => None,
    }
}

/// The value of a dotted key (`storage.file.path`) in a document.
pub fn lookup<'a>(root: &'a Json, key: &str) -> (r: Option<&'a Json>)
    ensures
        match r {
            Some(x) => lookup_spec(root@, key@) == Some(x@),
            None => lookup_spec(root@, key@) is None,
        },
{
    let parts = split(key, '.');
    assert(parts.deep_view().skip(0) =~= parts.deep_view());
    get_path(root, &parts, 0)
}

/// The value a key takes where the project's document lies over the
/// global one, and which of the two it comes from.
pub fn effective(local: &Json, global: &Json, key: &str) -> (r: Option<(Json, &'static str)>)
    ensures
        match lookup_spec(local@, key@) {
            Some(v) => r matches Some((x, s)) && x@ == v && s@ == "local"@,
            None => match lookup_spec(global@, key@) {
                Some(v) => r matches Some((x, s)) && x@ == v && s@ == "global"@,
                None => r is None,
            },
        },
{
    match lookup(local, key) {
        Some(v) => Some((v.clone(), "local")),
        None => match lookup(global, key) {
            Some(v) => Some((v.clone(), "global")),
            None => None,
        },
    }
}

/// How the configuration shows a value: `(not set)` for none, a string as
/// is, anything else in its JSON form.
pub open spec fn format_spec(v: Option<JsonV>) -> Seq<char> {
    match v {
        None => "(not set)"@,
        Some(JsonV::Str(t)) => t,
        Some(o) => compact_text(o),
    }
}

/// Shows a configuration value.
pub fn format_value(value: Option<&Json>) -> (r: String)
    ensures
        r@ == format_spec(match value {
            Some(v) => Some(v@),
            None => None,
        }),
{
    match value {
        None => owned("(not set)"),
        Some(Json::Str(t)) => t.clone(),
        Some(other) => crate::json::compact(other),
    }
}

/// The words of `opts`, comma-separated.
pub open spec fn joined(opts: Seq<Seq<char>>) -> Seq<char>
    decreases opts.len(),
{
    if opts.len() == 0 {
        Seq::empty()
    } else if opts.len() == 1 {
        opts[0]
    } else {
        joined(opts.drop_last()) + ", "@ + opts.last()
    }
}

/// The value a raw text gives a key of a kind: booleans from
/// `true/1/yes` and `false/0/no`, numbers as `i64`, enumerated words only
/// from their list, strings as they are. `Err` carries the message.
pub open spec fn parse_value_spec(key: Seq<char>, kind: int, options: Seq<Seq<char>>, raw: Seq<char>) -> Result<JsonV, Seq<char>> {
    if kind == 1 {
        if raw == "true"@ || raw == "1"@ || raw == "yes"@ {
            Ok(JsonV::Bool(true))
        } else if raw == "false"@ || raw == "0"@ || raw == "no"@ {
            Ok(JsonV::Bool(false))
        } else {
            Err("Invalid boolean value: \""@ + raw + "\". Use true/false, 1/0, or yes/no."@)
        }
    } else if kind == 2 {
        match parse_i64_spec(raw) {
            Some(n) => Ok(JsonV::Number(crate::text::int_dec(n as int))),
            None => Err("Invalid number value: \""@ + raw + "\""@),
        }
    } else if kind == 3 && !options.contains(raw) {
        Err("Invalid value \""@ + raw + "\" for "@ + key + ". Valid options: "@ + joined(options))
    } else {
        Ok(JsonV::Str(raw))
    }
}

/// The value a raw text gives a key.
pub fn parse_value(spec: &KeySpec, raw: &str) -> (r: Result<Json, String>)
    ensures
        ({
            let options = match spec.kind {
                Kind::Enum(opts) => opts@.map_values(|o: &str| o@),
                _ => Seq::empty(),
            };
            match r {
                Ok(v) => parse_value_spec(spec.key@, kind_code(spec.kind), options, raw@) == Ok::<JsonV, Seq<char>>(v@),
                Err(m) => parse_value_spec(spec.key@, kind_code(spec.kind), options, raw@) == Err::<JsonV, Seq<char>>(m@),
            }
        }),
{
    proof {
        reveal_strlit("true");
        reveal_strlit("1");
        reveal_strlit("yes");
        reveal_strlit("false");
        reveal_strlit("0");
        reveal_strlit("no");
    }
    match &spec.kind {
        Kind::Bool => {
            if str_eq(raw, "true") || str_eq(raw, "1") || str_eq(raw, "yes") {
                Ok(Json::Bool(true))
            } else if str_eq(raw, "false") || str_eq(raw, "0") || str_eq(raw, "no") {
                Ok(Json::Bool(false))
            } else {
                let mut m = owned("Invalid boolean value: \"");
                push_str(&mut m, raw);
                push_str(&mut m, "\". Use true/false, 1/0, or yes/no.");
                Err(m)
            }
        },
        Kind::Number => match parse_i64(raw) {
            Some(n) => Ok(Json::Number(crate::text::i64_text(n))),
            None => {
                let mut m = owned("Invalid number value: \"");
                push_str(&mut m, raw);
                push_str(&mut m, "\"");
                Err(m)
            },
        },
        Kind::Enum(options) => {
            let ghost ov = options@.map_values(|o: &str| o@);
            let mut found = false;
            let mut i: usize = 0;
            while i < options.len()
                invariant
                    i <= options.len(),
                    ov == options@.map_values(|o: &str| o@),
                    found == (exists|k: int| 0 <= k < i && ov[k] == raw@),
                decreases options.len() - i,
            {
                assert(ov[i as int] == options[i as int]@);
                if str_eq(options[i], raw) {
                    found = true;
                }
                proof {
                    if found {
                        if ov[i as int] != raw@ {
                            let w = choose|k: int| 0 <= k < i && ov[k] == raw@;
                            assert(0 <= w < i + 1 && ov[w] == raw@);
                        }
                    } else {
                        assert forall|k: int| 0 <= k < i + 1 implies ov[k] != raw@ by {
                            if k < i {
                            }
                        }
                    }
                }
                i = i + 1;
            }
            if !found {
                let mut m = owned("Invalid value \"");
                push_str(&mut m, raw);
                push_str(&mut m, "\" for ");
                push_str(&mut m, spec.key);
                push_str(&mut m, ". Valid options: ");
                let mut k: usize = 0;
                let ghost start = m@;
                while k < options.len()
                    invariant
                        k <= options.len(),
                        ov == options@.map_values(|o: &str| o@),
                        m@ == start + joined(ov.take(k as int)),
                    decreases options.len() - k,
                {
                    assert(ov.take(k + 1).drop_last() =~= ov.take(k as int));
                    if k > 0 {
                        push_str(&mut m, ", ");
                    } else {
                        assert(ov.take(1) =~= seq![ov[0]]);
                    }
                    push_str(&mut m, options[k]);
                    k = k + 1;
                }
                assert(ov.take(options.len() as int) =~= ov);
                Err(m)
            } else {
                Ok(Json::Str(owned(raw)))
            }
        },
        Kind::String => Ok(Json::Str(owned(raw))),
    }
}

/// Whether a value is a table: an object with as many keys as values.
pub open spec fn is_table(v: JsonV) -> bool {
    v matches JsonV::Object(keys, values) && keys.len() == values.len()
}

/// The empty table.
pub open spec fn empty_table() -> JsonV {
    JsonV::Object(Seq::empty(), Seq::empty())
}

/// The table under `key` on the way down a path: the member if it is a
/// table, a fresh empty table otherwise.
pub open spec fn table_child(v: JsonV, key: Seq<char>) -> JsonV {
    match json_get(v, key) {
        Some(c) => if is_table(c) {
            c
        } else {
            empty_table()
        },
        None => empty_table(),
    }
}

/// The document with the value at a path of keys set, making each table
/// on the way that is missing (or is not a table).
pub open spec fn set_path(v: JsonV, parts: Seq<Seq<char>>, value: JsonV) -> JsonV
    decreases parts.len(),
{
    match v {
        JsonV::Object(keys, values) => if parts.len() == 0 {
            v
        } else {
            let inner = if parts.len() == 1 {
                value
            } else {
                set_path(table_child(v, parts[0]), parts.drop_first(), value)
            };
            let kv = members_insert(keys, values, parts[0], inner);
            JsonV::Object(kv.0, kv.1)
        },
        _ => v,
    }
}

/// The document with a dotted key set.
pub open spec fn set_spec(root: JsonV, key: Seq<char>, value: JsonV) -> JsonV {
    set_path(root, split_char(key, '.'), value)
}

/// There is at least one piece.
pub proof fn lemma_split_char_len(s: Seq<char>, c: char)
    ensures
        split_char(s, c).len() >= 1,
    decreases s.len(),
{
    let k = crate::text::find_from(s, seq![c], 0);
    if k != -1 {
        crate::text::lemma_find_from(s, seq![c], 0);
        lemma_split_char_len(s.skip(k + 1), c);
    }
}

impl Json {
    /// Whether the value is a table.
    pub fn is_table(&self) -> (r: bool)
        ensures
            r == is_table(self@),
    {
        match self {
            Json::Object(keys, values) => {
                proof {
                    lemma_view_parts(*self);
                }
                keys.len() == values.len()
            },
            _ => false,
        }
    }
}

/// A new empty table.
pub fn empty_object() -> (r: Json)
    ensures
        r@ == empty_table(),
{
    let r = Json::Object(Vec::new(), Vec::new());
    proof {
        lemma_view_parts(r);
        assert(r@->Object_0 =~= Seq::<Seq<char>>::empty());
        assert(r@->Object_1 =~= Seq::<JsonV>::empty());
    }
    r
}

fn set_in(v: Json, parts: &Vec<String>, i: usize, value: Json) -> (r: Json)
    requires
        is_table(v@),
        i < parts.len(),
    ensures
        r@ == set_path(v@, parts.deep_view().skip(i as int), value@),
        is_table(r@),
    decreases parts.len() - i,
{
    let ghost vv = v@;
    let ghost rest = parts.deep_view().skip(i as int);
    assert(rest[0] == parts[i as int]@);
    assert(rest.drop_first() =~= parts.deep_view().skip(i + 1));
    proof {
        lemma_view_parts(v);
    }
    match v {
        Json::Object(mut keys, mut values) => {
            let ghost kv0 = keys.deep_view();
            let ghost vs0 = items_view(values@);
            let key = parts[i].clone();
            let inner = if i + 1 == parts.len() {
                value
            } else {
                proof {
                    lemma_members_get_first(kv0, vs0, key@);
                    kv0.index_of_first_ensures(key@);
                    assert(keys.len() == values.len());
                }
                let child = match member_index(&keys, key.as_str()) {
                    Some(k) => {
                        assert(vs0[k as int] == values@[k as int]@);
                        let c = values[k].deep_copy();
                        if c.is_table() {
                            c
                        } else {
                            empty_object()
                        }
                    },
                    None => empty_object(),
                };
                assert(child@ == table_child(vv, key@));
                set_in(child, parts, i + 1, value)
            };
            let ghost iv = inner@;
            object_insert(&mut keys, &mut values, key, inner);
            let r = Json::Object(keys, values);
            proof {
                lemma_view_parts(r);
            }
            r
        },
        _ => v,
    }
}

/// Sets the value of a dotted key, making the tables on the way.
pub fn set(root: &mut Json, key: &str, value: Json)
    requires
        is_table(old(root)@),
    ensures
        final(root)@ == set_spec(old(root)@, key@, value@),
        is_table(final(root)@),
{
    let parts = split(key, '.');
    proof {
        lemma_split_char_len(key@, '.');
        assert(parts.deep_view().skip(0) =~= parts.deep_view());
    }
    let mut doc = Json::Null;
    std::mem::swap(&mut doc, root);
    *root = set_in(doc, &parts, 0, value);
}

/// Reading a dotted key back after setting it gives the value set.
pub proof fn law_set_then_lookup(root: JsonV, key: Seq<char>, value: JsonV)
    requires
        is_table(root),
    ensures
        lookup_spec(set_spec(root, key, value), key) == Some(value),
{
    lemma_split_char_len(key, '.');
    lemma_set_path_get(root, split_char(key, '.'), value);
}

proof fn lemma_insert_get(keys: Seq<Seq<char>>, values: Seq<JsonV>, key: Seq<char>, value: JsonV)
    requires
        keys.len() == values.len(),
    ensures
        ({
            let kv = members_insert(keys, values, key, value);
            &&& kv.0.len() == kv.1.len()
            &&& members_get(kv.0, kv.1, key, 0) == Some(value)
        }),
{
    let kv = members_insert(keys, values, key, value);
    keys.index_of_first_ensures(key);
    lemma_members_get_first(kv.0, kv.1, key);
    kv.0.index_of_first_ensures(key);
    match keys.index_of_first(key) {
        Some(k) => {},
        None => {
            assert(kv.0[keys.len() as int] == key);
            assert(kv.0.contains(key));
            let idx = kv.0.index_of_first(key)->0;
            if idx < keys.len() {
                assert(keys[idx] == key);
                assert(keys.contains(key));
            }
        },
    }
}

proof fn lemma_set_path_get(v: JsonV, parts: Seq<Seq<char>>, value: JsonV)
    requires
        is_table(v),
        parts.len() >= 1,
    ensures
        path_get(set_path(v, parts, value), parts) == Some(value),
        is_table(set_path(v, parts, value)),
    decreases parts.len(),
{
    let keys = v->Object_0;
    let values = v->Object_1;
    let inner = if parts.len() == 1 {
        value
    } else {
        set_path(table_child(v, parts[0]), parts.drop_first(), value)
    };
    lemma_insert_get(keys, values, parts[0], inner);
    if parts.len() > 1 {
        lemma_set_path_get(table_child(v, parts[0]), parts.drop_first(), value);
    } else {
        assert(parts.drop_first() =~= Seq::<Seq<char>>::empty());
    }
}

/// The members of an object among the first `n` whose key is not `key`.
pub open spec fn drop_key(keys: Seq<Seq<char>>, values: Seq<JsonV>, key: Seq<char>, n: int) -> (Seq<Seq<char>>, Seq<JsonV>)
    decreases n,
{
    if n <= 0 {
        (Seq::empty(), Seq::empty())
    } else {
        let d = drop_key(keys, values, key, n - 1);
        if keys[n - 1] == key {
            d
        } else {
            (d.0.push(keys[n - 1]), d.1.push(values[n - 1]))
        }
    }
}

/// How many members an object has: as many as it has both keys and
/// values for.
pub open spec fn member_count(keys: Seq<Seq<char>>, values: Seq<JsonV>) -> int {
    if keys.len() <= values.len() {
        keys.len() as int
    } else {
        values.len() as int
    }
}

/// The document with the value at a path of keys removed, and whether
/// there was one.
pub open spec fn unset_path(v: JsonV, parts: Seq<Seq<char>>) -> (JsonV, bool)
    decreases parts.len(),
{
    match v {
        JsonV::Object(keys, values) => if parts.len() == 0 {
            (v, false)
        } else if parts.len() == 1 {
            let d = drop_key(keys, values, parts[0], member_count(keys, values));
            (JsonV::Object(d.0, d.1), members_get(keys, values, parts[0], 0) is Some)
        } else {
            match json_get(v, parts[0]) {
                Some(c) => {
                    let u = unset_path(c, parts.drop_first());
                    (JsonV::Object(keys, values.update(keys.index_of_first(parts[0])->0, u.0)), u.1)
                },
                None => (v, false),
            }
        },
        _ => (v, false),
    }
}

/// The document with a dotted key removed, and whether it was there.
pub open spec fn unset_spec(root: JsonV, key: Seq<char>) -> (JsonV, bool) {
    unset_path(root, split_char(key, '.'))
}

fn drop_member(keys: Vec<String>, values: Vec<Json>, key: &str) -> (r: (Json, bool))
    ensures
        ({
            let d = drop_key(keys.deep_view(), items_view(values@), key@, member_count(keys.deep_view(), items_view(values@)));
            &&& r.0@ == JsonV::Object(d.0, d.1)
            &&& r.1 == (members_get(keys.deep_view(), items_view(values@), key@, 0) is Some)
        }),
{
    let ghost kv = keys.deep_view();
    let ghost vs = items_view(values@);
    let n = if keys.len() <= values.len() {
        keys.len()
    } else {
        values.len()
    };
    let mut nk: Vec<String> = Vec::new();
    let mut nv: Vec<Json> = Vec::new();
    let mut removed = false;
    let mut j: usize = 0;
    while j < n
        invariant
            j <= n,
            n == member_count(kv, vs),
            n <= keys.len(),
            n <= values.len(),
            kv == keys.deep_view(),
            vs == items_view(values@),
            (nk.deep_view(), items_view(nv@)) == drop_key(kv, vs, key@, j as int),
            removed == (exists|q: int| 0 <= q < j && kv[q] == key@),
        decreases n - j,
    {
        let ghost before = (nk.deep_view(), items_view(nv@));
        if str_eq(keys[j].as_str(), key) {
            assert(kv[j as int] == key@);
            removed = true;
        } else {
            nk.push(keys[j].clone());
            nv.push(values[j].deep_copy());
            assert(nk.deep_view() =~= before.0.push(kv[j as int]));
            assert(items_view(nv@) =~= before.1.push(vs[j as int]));
        }
        proof {
            if !removed {
                assert forall|q: int| 0 <= q < j + 1 implies kv[q] != key@ by {
                    if q < j {
                        if kv[q] == key@ {
                            assert(exists|q2: int| 0 <= q2 < j && kv[q2] == key@);
                        }
                    }
                }
            }
        }
        j = j + 1;
    }
    proof {
        lemma_members_get_first(kv, vs, key@);
        kv.index_of_first_ensures(key@);
        if removed {
            let q = choose|q: int| 0 <= q < n && kv[q] == key@;
            assert(kv.contains(key@));
            let k = kv.index_of_first(key@)->0;
            assert(k <= q);
        } else {
            if kv.index_of_first(key@) is Some {
                let k = kv.index_of_first(key@)->0;
                if k < vs.len() {
                    assert(kv[k] == key@);
                }
            }
        }
    }
    let r = Json::Object(nk, nv);
    proof {
        lemma_view_parts(r);
    }
    (r, removed)
}

fn unset_in(v: Json, parts: &Vec<String>, i: usize) -> (r: (Json, bool))
    requires
        i < parts.len(),
    ensures
        (r.0@, r.1) == unset_path(v@, parts.deep_view().skip(i as int)),
    decreases parts.len() - i,
{
    let ghost vv = v@;
    let ghost rest = parts.deep_view().skip(i as int);
    assert(rest[0] == parts[i as int]@);
    assert(rest.drop_first() =~= parts.deep_view().skip(i + 1));
    proof {
        lemma_view_parts(v);
    }
    match v {
        Json::Object(keys, mut values) => {
            if i + 1 == parts.len() {
                return drop_member(keys, values, parts[i].as_str());
            }
            let ghost kv = keys.deep_view();
            let ghost vs = items_view(values@);
            proof {
                lemma_members_get_first(kv, vs, parts[i as int]@);
                kv.index_of_first_ensures(parts[i as int]@);
            }
            match member_index(&keys, parts[i].as_str()) {
                Some(k) => {
                    if k < values.len() {
                        let c = values.remove(k);
                        assert(c@ == vs[k as int]);
                        let (c2, b) = unset_in(c, parts, i + 1);
                        let ghost cv = c2@;
                        values.insert(k, c2);
                        assert(items_view(values@) =~= vs.update(k as int, cv));
                        let r = Json::Object(keys, values);
                        proof {
                            lemma_view_parts(r);
                        }
                        (r, b)
                    } else {
                        let r = Json::Object(keys, values);
                        proof {
                            lemma_view_parts(r);
                        }
                        (r, false)
                    }
                },
                None => {
                    let r = Json::Object(keys, values);
                    proof {
                        lemma_view_parts(r);
                    }
                    (r, false)
                },
            }
        },
        _ => (v, false),
    }
}

/// Removes a dotted key; says whether it was there.
pub fn unset(root: &mut Json, key: &str) -> (r: bool)
    ensures
        (final(root)@, r) == unset_spec(old(root)@, key@),
{
    let parts = split(key, '.');
    proof {
        lemma_split_char_len(key@, '.');
        assert(parts.deep_view().skip(0) =~= parts.deep_view());
    }
    let mut doc = Json::Null;
    std::mem::swap(&mut doc, root);
    let (d, removed) = unset_in(doc, &parts, 0);
    *root = d;
    removed
}

/// Removing a dotted key reports whether it was set, and afterwards the
/// key reads as not set.
pub proof fn law_unset_then_lookup(root: JsonV, key: Seq<char>)
    ensures
        unset_spec(root, key).1 == (lookup_spec(root, key) is Some),
        lookup_spec(unset_spec(root, key).0, key) is None,
{
    lemma_split_char_len(key, '.');
    lemma_unset_path(root, split_char(key, '.'));
}

proof fn lemma_drop_key(keys: Seq<Seq<char>>, values: Seq<JsonV>, key: Seq<char>, n: int)
    requires
        n <= keys.len(),
        n <= values.len(),
    ensures
        drop_key(keys, values, key, n).0.len() == drop_key(keys, values, key, n).1.len(),
        forall|j: int| 0 <= j < drop_key(keys, values, key, n).0.len() ==> drop_key(keys, values, key, n).0[j] != key,
    decreases n,
{
    if n > 0 {
        lemma_drop_key(keys, values, key, n - 1);
    }
}

proof fn lemma_unset_path(v: JsonV, parts: Seq<Seq<char>>)
    requires
        parts.len() >= 1,
    ensures
        unset_path(v, parts).1 == (path_get(v, parts) is Some),
        path_get(unset_path(v, parts).0, parts) is None,
    decreases parts.len(),
{
    match v {
        JsonV::Object(keys, values) => {
            lemma_members_get_first(keys, values, parts[0]);
            keys.index_of_first_ensures(parts[0]);
            if parts.len() == 1 {
                assert(parts.drop_first() =~= Seq::<Seq<char>>::empty());
                let d = drop_key(keys, values, parts[0], member_count(keys, values));
                lemma_drop_key(keys, values, parts[0], member_count(keys, values));
                lemma_members_get_first(d.0, d.1, parts[0]);
                d.0.index_of_first_ensures(parts[0]);
                if d.0.contains(parts[0]) {
                    let j = choose|j: int| 0 <= j < d.0.len() && d.0[j] == parts[0];
                    assert(d.0[j] != parts[0]);
                }
            } else {
                match json_get(v, parts[0]) {
                    Some(c) => {
                        lemma_unset_path(c, parts.drop_first());
                        let u = unset_path(c, parts.drop_first());
                        let k = keys.index_of_first(parts[0])->0;
                        lemma_members_get_first(keys, values.update(k, u.0), parts[0]);
                    },
                    None => {},
                }
            }
        },
        _ => {},
    }
}

/// One document laid over another: two tables merge member by member,
/// anything else is replaced by the overlay.
pub open spec fn merge_v(base: JsonV, overlay: JsonV) -> JsonV
    decreases overlay, 0int,
{
    match overlay {
        JsonV::Object(ok, ov) => if is_table(base) && is_table(overlay) {
            merge_members(base, ok, ov, ov.len() as int)
        } else {
            overlay
        },
        _ => overlay,
    }
}

/// `base` with the first `n` members of an overlay table laid over it, in
/// order: a member whose value and whose counterpart in `base` are both
/// tables is merged into it, any other replaces or joins the members.
pub open spec fn merge_members(base: JsonV, ok: Seq<Seq<char>>, ov: Seq<JsonV>, n: int) -> JsonV
    decreases ov, n,
{
    if n <= 0 || n > ov.len() || n > ok.len() {
        base
    } else {
        let b = merge_members(base, ok, ov, n - 1);
        let key = ok[n - 1];
        let value = ov[n - 1];
        match b {
            JsonV::Object(bk, bv) => match json_get(b, key) {
                Some(e) => if is_table(e) && is_table(value) {
                    JsonV::Object(bk, bv.update(bk.index_of_first(key)->0, merge_v(e, value)))
                } else {
                    let kv = members_insert(bk, bv, key, value);
                    JsonV::Object(kv.0, kv.1)
                },
                None => {
                    let kv = members_insert(bk, bv, key, value);
                    JsonV::Object(kv.0, kv.1)
                },
            },
            _ => b,
        }
    }
}

/// Lays `overlay` over `base`.
pub fn merge(base: Json, overlay: Json) -> (r: Json)
    ensures
        r@ == merge_v(base@, overlay@),
    decreases overlay@,
{
    if !(base.is_table() && overlay.is_table()) {
        return overlay;
    }
    proof {
        lemma_view_parts(overlay);
    }
    let ghost ov0 = overlay@;
    match &overlay {
        Json::Object(ok, ov) => {
            let ghost okv = ok.deep_view();
            let ghost ovv = items_view(ov@);
            let mut b = base;
            let mut j: usize = 0;
            while j < ov.len()
                invariant
                    j <= ov.len(),
                    ok.len() == ov.len(),
                    ov0 == overlay@,
                    ov0 == JsonV::Object(okv, ovv),
                    okv == ok.deep_view(),
                    ovv == items_view(ov@),
                    is_table(b@),
                    b@ == merge_members(base@, okv, ovv, j as int),
                decreases ov.len() - j,
            {
                let key = ok[j].clone();
                let value = ov[j].deep_copy();
                assert(value@ == ovv[j as int]);
                assert(key@ == okv[j as int]);
                proof {
                    lemma_view_parts(b);
                }
                let ghost bb = b@;
                match b {
                    Json::Object(mut bk, mut bv) => {
                        let ghost bkv = bk.deep_view();
                        let ghost bvv = items_view(bv@);
                        proof {
                            lemma_members_get_first(bkv, bvv, key@);
                            bkv.index_of_first_ensures(key@);
                        }
                        let mut merged_in = false;
                        match member_index(&bk, key.as_str()) {
                            Some(k) => {
                                assert(bvv[k as int] == bv@[k as int]@);
                                if bv[k].is_table() && value.is_table() {
                                    let e = bv.remove(k);
                                    proof {
                                        assert(ov0->Object_1 == ovv);
                                        assert(decreases_to!(ov0 => ov0->Object_1));
                                        assert(decreases_to!(ovv => ovv[j as int]));
                                    }
                                    let m = merge(e, value);
                                    let ghost mv = m@;
                                    bv.insert(k, m);
                                    assert(items_view(bv@) =~= bvv.update(k as int, mv));
                                    merged_in = true;
                                    b = Json::Object(bk, bv);
                                } else {
                                    object_insert(&mut bk, &mut bv, key, value);
                                    b = Json::Object(bk, bv);
                                }
                            },
                            None => {
                                object_insert(&mut bk, &mut bv, key, value);
                                b = Json::Object(bk, bv);
                            },
                        }
                        proof {
                            lemma_view_parts(b);
                        }
                    },
                    _ => {
                        b = Json::Null;
                    },
                }
                j = j + 1;
            }
            b
        },
        _ => base,
    }
}

/// The settings of one sync integration.
pub struct IntegrationConfig {
    pub enabled: bool,
    pub token_env: Option<String>,
    pub label_prefix: Option<String>,
    pub label: Option<String>,
    pub team: Option<String>,
    pub workspace: Option<String>,
    pub workflow: Option<String>,
    /// `None` when the key is absent, which counts as on.
    pub auto_on_change: Option<bool>,
    pub auto_max_age: Option<String>,
}

impl IntegrationConfig {
    /// Whether a change syncs at once: unless switched off.
    pub fn syncs_on_change(&self) -> (r: bool)
        ensures
            r == (self.auto_on_change != Some(false)),
    {
        match self.auto_on_change {
            Some(false) => false,
            _ => true,
        }
    }
}

/// The settings of archiving.
pub struct ArchiveConfig {
    pub auto: bool,
    pub age_days: i64,
    pub keep_recent: usize,
}

impl Default for ArchiveConfig {
    fn default() -> (r: Self)
        ensures
            r.auto == false,
            r.age_days == 90,
            r.keep_recent == 50,
    {
        ArchiveConfig { auto: false, age_days: 90, keep_recent: 50 }
    }
}

/// The settings the tool runs with.
pub struct Config {
    pub engine: String,
    pub storage_path: Option<String>,
    pub centralized: bool,
    pub github: IntegrationConfig,
    pub shortcut: IntegrationConfig,
    pub archive: ArchiveConfig,
}

/// The string at a dotted key.
pub open spec fn text_at(doc: JsonV, key: Seq<char>) -> Option<Seq<char>> {
    match lookup_spec(doc, key) {
        Some(v) => crate::json::json_str(v),
        None => None,
    }
}

/// The boolean at a dotted key.
pub open spec fn flag_at(doc: JsonV, key: Seq<char>) -> Option<bool> {
    match lookup_spec(doc, key) {
        Some(v) => crate::json::json_bool(v),
        None => None,
    }
}

/// The integer at a dotted key.
pub open spec fn number_at(doc: JsonV, key: Seq<char>) -> Option<i64> {
    match lookup_spec(doc, key) {
        Some(JsonV::Number(t)) => parse_i64_spec(t),
        _ => None,
    }
}

/// The key `sync.<name><field>`, where `field` starts with a dot.
pub open spec fn sync_key(name: Seq<char>, field: Seq<char>) -> Seq<char> {
    "sync."@ + name + field
}

/// The settings of integration `name` in a document.
pub open spec fn integration_of(c: IntegrationConfig, doc: JsonV, name: Seq<char>) -> bool {
    &&& c.enabled == (flag_at(doc, sync_key(name, ".enabled"@)) == Some(true))
    &&& opt_view(c.token_env) == text_at(doc, sync_key(name, ".token_env"@))
    &&& opt_view(c.label_prefix) == text_at(doc, sync_key(name, ".label_prefix"@))
    &&& opt_view(c.label) == text_at(doc, sync_key(name, ".label"@))
    &&& opt_view(c.team) == text_at(doc, sync_key(name, ".team"@))
    &&& opt_view(c.workspace) == text_at(doc, sync_key(name, ".workspace"@))
    &&& opt_view(c.workflow) == match lookup_spec(doc, sync_key(name, ".workflow"@)) {
        Some(v) => Some(format_spec(Some(v))),
        None => None,
    }
    &&& c.auto_on_change == flag_at(doc, sync_key(name, ".auto.on_change"@))
    &&& opt_view(c.auto_max_age) == text_at(doc, sync_key(name, ".auto.max_age"@))
}

fn text_value(doc: &Json, key: &str) -> (r: Option<String>)
    ensures
        opt_view(r) == text_at(doc@, key@),
{
    match lookup(doc, key) {
        Some(v) => match v.as_str() {
            Some(t) => Some(t.clone()),
            None => None,
        },
        None => None,
    }
}

fn flag_value(doc: &Json, key: &str) -> (r: Option<bool>)
    ensures
        r == flag_at(doc@, key@),
{
    match lookup(doc, key) {
        Some(v) => v.as_bool(),
        None => None,
    }
}

fn number_value(doc: &Json, key: &str) -> (r: Option<i64>)
    ensures
        r == number_at(doc@, key@),
{
    match lookup(doc, key) {
        Some(Json::Number(t)) => parse_i64(t.as_str()),
        _ => None,
    }
}

fn integration(doc: &Json, name: &str) -> (r: IntegrationConfig)
    ensures
        integration_of(r, doc@, name@),
{
    let workflow = match lookup(doc, cat3("sync.", name, ".workflow").as_str()) {
        Some(v) => Some(format_value(Some(v))),
        None => None,
    };
    let enabled = match flag_value(doc, cat3("sync.", name, ".enabled").as_str()) {
        Some(true) => true,
        _ => false,
    };
    IntegrationConfig {
        enabled,
        token_env: text_value(doc, cat3("sync.", name, ".token_env").as_str()),
        label_prefix: text_value(doc, cat3("sync.", name, ".label_prefix").as_str()),
        label: text_value(doc, cat3("sync.", name, ".label").as_str()),
        team: text_value(doc, cat3("sync.", name, ".team").as_str()),
        workspace: text_value(doc, cat3("sync.", name, ".workspace").as_str()),
        workflow,
        auto_on_change: flag_value(doc, cat3("sync.", name, ".auto.on_change").as_str()),
        auto_max_age: text_value(doc, cat3("sync.", name, ".auto.max_age").as_str()),
    }
}

/// The engine a document names, `file` when none.
pub open spec fn engine_of(doc: JsonV) -> Seq<char> {
    match text_at(doc, "storage.engine"@) {
        Some(e) => e,
        None => "file"@,
    }
}

/// What the settings of a document are: only the `file` engine is
/// accepted; what is not set takes its default.
pub open spec fn settings_of(doc: JsonV, r: Result<Config, String>) -> bool {
    match r {
        Ok(c) => {
            &&& engine_of(doc) == "file"@
            &&& c.engine@ == "file"@
            &&& opt_view(c.storage_path) == text_at(doc, "storage.file.path"@)
            &&& c.centralized == (text_at(doc, "storage.file.mode"@) == Some("centralized"@))
            &&& integration_of(c.github, doc, "github"@)
            &&& integration_of(c.shortcut, doc, "shortcut"@)
            &&& c.archive.auto == (match flag_at(doc, "archive.auto"@) {
                Some(b) => b,
                None => false,
            })
            &&& c.archive.age_days == (match number_at(doc, "archive.age_days"@) {
                Some(n) => n,
                None => 90,
            })
            &&& c.archive.keep_recent == (match number_at(doc, "archive.keep_recent"@) {
                Some(n) => if n < 0 {
                    0
                } else {
                    n as usize
                },
                None => 50,
            })
        },
        Err(m) => engine_of(doc) != "file"@ && m@ == "Unsupported storage engine: "@ + engine_of(doc)
            + ".\nOnly \"file\" storage is supported. Use sync.github for GitHub integration."@,
    }
}

/// The settings a merged document gives: only the `file` engine is
/// accepted; what is not set takes its default.
pub fn settings(doc: &Json) -> (r: Result<Config, String>)
    ensures
        settings_of(doc@, r),
{
    let engine = match text_value(doc, "storage.engine") {
        Some(e) => e,
        None => owned("file"),
    };
    if !str_eq(engine.as_str(), "file") {
        let mut m = owned("Unsupported storage engine: ");
        push_str(&mut m, engine.as_str());
        push_str(&mut m, ".\nOnly \"file\" storage is supported. Use sync.github for GitHub integration.");
        return Err(m);
    }
    let mode = text_value(doc, "storage.file.mode");
    proof {
        reveal_strlit("centralized");
    }
    let centralized = match &mode {
        Some(t) => str_eq(t.as_str(), "centralized"),
        None => false,
    };
    let defaults = ArchiveConfig::default();
    let auto = match flag_value(doc, "archive.auto") {
        Some(b) => b,
        None => defaults.auto,
    };
    let age_days = match number_value(doc, "archive.age_days") {
        Some(n) => n,
        None => defaults.age_days,
    };
    let keep_recent: usize = match number_value(doc, "archive.keep_recent") {
        Some(n) => if n < 0 {
            0
        } else {
            #[verifier::truncate]
            (n as usize)
        },
        None => defaults.keep_recent,
    };
    Ok(Config {
        engine,
        storage_path: text_value(doc, "storage.file.path"),
        centralized,
        github: integration(doc, "github"),
        shortcut: integration(doc, "shortcut"),
        archive: ArchiveConfig { auto, age_days, keep_recent },
    })
}

/// The settings from the global document with the project's laid over it.
pub fn load(global: Json, project: Option<Json>) -> (r: Result<Config, String>)
    ensures
        ({
            let merged = match project {
                Some(p) => merge_v(merge_v(empty_table(), global@), p@),
                None => merge_v(empty_table(), global@),
            };
            settings_of(merged, r)
        }),
{
    let mut merged = merge(empty_object(), global);
    match project {
        Some(p) => {
            merged = merge(merged, p);
        },
        None => {},
    }
    settings(&merged)
}

/// A relative path appended to a directory (`Path::join`): a separator
/// goes between unless the directory is empty or already ends with one.
pub open spec fn path_join(dir: Seq<char>, name: Seq<char>) -> Seq<char> {
    if dir.len() == 0 {
        name
    } else if dir.last() == '/' {
        dir + name
    } else {
        dir + "/"@ + name
    }
}

/// Appends a relative path to a directory.
pub fn join_path(dir: &str, name: &str) -> (r: String)
    ensures
        r@ == path_join(dir@, name@),
{
    proof {
        reveal_strlit("/");
    }
    let d = chars_of(dir);
    let mut r = owned(dir);
    if d.len() > 0 && d[d.len() - 1] != '/' {
        push_str(&mut r, "/");
    }
    push_str(&mut r, name);
    r
}

/// The directory of the tool's own settings: `DEX_HOME`, else `dex` under
/// `XDG_CONFIG_HOME`, else `.config/dex` under `HOME`.
pub fn home_dir(dex_home: Option<&str>, xdg_config_home: Option<&str>, home: Option<&str>) -> (r: Result<String, String>)
    ensures
        match r {
            Ok(d) => match dex_home {
                Some(h) => d@ == h@,
                None => match xdg_config_home {
                    Some(x) => d@ == path_join(x@, "dex"@),
                    None => home is Some && d@ == path_join(home->0@, ".config/dex"@),
                },
            },
            Err(m) => dex_home is None && xdg_config_home is None && home is None && m@ == "HOME is not set"@,
        },
{
    match dex_home {
        Some(h) => Ok(owned(h)),
        None => match xdg_config_home {
            Some(x) => Ok(join_path(x, "dex")),
            None => match home {
                Some(h) => Ok(join_path(h, ".config/dex")),
                None => Err(owned("HOME is not set")),
            },
        },
    }
}

/// The global configuration file under the tool's directory.
pub fn global_config_path(dex_home: &str) -> (r: String)
    ensures
        r@ == path_join(dex_home@, "dex.toml"@),
{
    join_path(dex_home, "dex.toml")
}

/// The project's configuration file, if the work is in a repository.
pub fn project_config_path(git_root: Option<&str>) -> (r: Option<String>)
    ensures
        match git_root {
            Some(root) => r is Some && r->0@ == path_join(root@, ".dex/config.toml"@),
            None => r is None,
        },
{
    match git_root {
        Some(root) => Some(join_path(root, ".dex/config.toml")),
        None => None,
    }
}

/// What a key of the overlay gives when laid over the base's value.
pub open spec fn laid_over(base: Option<JsonV>, over: JsonV) -> JsonV {
    match base {
        Some(e) => if is_table(e) && is_table(over) {
            merge_v(e, over)
        } else {
            over
        },
        None => over,
    }
}

proof fn lemma_get_other_insert(keys: Seq<Seq<char>>, values: Seq<JsonV>, k1: Seq<char>, v: JsonV, key: Seq<char>)
    requires
        keys.len() == values.len(),
        k1 != key,
    ensures
        members_get(members_insert(keys, values, k1, v).0, members_insert(keys, values, k1, v).1, key, 0) == members_get(
            keys,
            values,
            key,
            0,
        ),
{
    let kv = members_insert(keys, values, k1, v);
    lemma_members_get_first(keys, values, key);
    lemma_members_get_first(kv.0, kv.1, key);
    keys.index_of_first_ensures(key);
    kv.0.index_of_first_ensures(key);
    keys.index_of_first_ensures(k1);
    match keys.index_of_first(k1) {
        Some(i1) => {
            match keys.index_of_first(key) {
                Some(i) => {
                    assert(i != i1);
                },
                None => {},
            }
        },
        None => {
            match kv.0.index_of_first(key) {
                Some(j) => {
                    assert(j < keys.len()) by {
                        if j == keys.len() {
                            assert(kv.0[j] == k1);
                        }
                    }
                    assert(keys[j] == key);
                    assert(keys.contains(key));
                    let i = keys.index_of_first(key)->0;
                    assert(kv.0[i] == key);
                    assert(i == j);
                },
                None => {
                    if keys.contains(key) {
                        let i = keys.index_of_first(key)->0;
                        assert(kv.0[i] == key);
                        assert(kv.0.contains(key));
                    }
                },
            }
        },
    }
}

proof fn lemma_get_other_update(keys: Seq<Seq<char>>, values: Seq<JsonV>, k1: Seq<char>, w: JsonV, key: Seq<char>)
    requires
        keys.len() == values.len(),
        k1 != key,
        keys.contains(k1),
    ensures
        members_get(keys, values.update(keys.index_of_first(k1)->0, w), key, 0) == members_get(keys, values, key, 0),
{
    lemma_members_get_first(keys, values, key);
    lemma_members_get_first(keys, values.update(keys.index_of_first(k1)->0, w), key);
    keys.index_of_first_ensures(key);
    keys.index_of_first_ensures(k1);
}

proof fn lemma_get_same_update(keys: Seq<Seq<char>>, values: Seq<JsonV>, key: Seq<char>, w: JsonV)
    requires
        keys.len() == values.len(),
        keys.contains(key),
    ensures
        members_get(keys, values.update(keys.index_of_first(key)->0, w), key, 0) == Some(w),
{
    lemma_members_get_first(keys, values.update(keys.index_of_first(key)->0, w), key);
    keys.index_of_first_ensures(key);
}

proof fn lemma_merge_members(base: JsonV, ok: Seq<Seq<char>>, ov: Seq<JsonV>, key: Seq<char>, n: int)
    requires
        is_table(base),
        ok.len() == ov.len(),
        ok.no_duplicates(),
        0 <= n <= ov.len(),
    ensures
        is_table(merge_members(base, ok, ov, n)),
        json_get(merge_members(base, ok, ov, n), key) == if ok.take(n).contains(key) {
            Some(laid_over(json_get(base, key), ov[ok.index_of_first(key)->0]))
        } else {
            json_get(base, key)
        },
    decreases n,
{
    if n > 0 {
        lemma_merge_members(base, ok, ov, key, n - 1);
        let b = merge_members(base, ok, ov, n - 1);
        let k1 = ok[n - 1];
        let v1 = ov[n - 1];
        let bk = b->Object_0;
        let bv = b->Object_1;
        lemma_members_get_first(bk, bv, k1);
        bk.index_of_first_ensures(k1);
        ok.index_of_first_ensures(key);
        assert(ok.take(n).contains(key) <==> (ok.take(n - 1).contains(key) || k1 == key)) by {
            if ok.take(n).contains(key) && k1 != key {
                let q = choose|q: int| 0 <= q < n && #[trigger] ok.take(n)[q] == key;
                assert(ok.take(n - 1)[q] == key);
            }
            if ok.take(n - 1).contains(key) {
                let q = choose|q: int| 0 <= q < n - 1 && #[trigger] ok.take(n - 1)[q] == key;
                assert(ok.take(n)[q] == key);
            }
            if k1 == key {
                assert(ok.take(n)[n - 1] == key);
            }
        }
        if k1 == key {
            assert(!ok.take(n - 1).contains(key)) by {
                if ok.take(n - 1).contains(key) {
                    let q = choose|q: int| 0 <= q < n - 1 && #[trigger] ok.take(n - 1)[q] == key;
                    assert(ok[q] == ok[n - 1]);
                }
            }
            assert(ok.contains(key)) by {
                assert(ok[n - 1] == key);
            }
            let i = ok.index_of_first(key)->0;
            assert(i == n - 1) by {
                if i < n - 1 {
                    assert(ok.take(n - 1)[i] == key);
                }
                if i > n - 1 {
                    assert(ok[n - 1] == key);
                }
            }
            match json_get(b, k1) {
                Some(e) => if is_table(e) && is_table(v1) {
                    lemma_get_same_update(bk, bv, key, merge_v(e, v1));
                } else {
                    lemma_insert_get(bk, bv, key, v1);
                },
                None => {
                    lemma_insert_get(bk, bv, key, v1);
                },
            }
        } else {
            match json_get(b, k1) {
                Some(e) => if is_table(e) && is_table(v1) {
                    lemma_get_other_update(bk, bv, k1, merge_v(e, v1), key);
                } else {
                    lemma_get_other_insert(bk, bv, k1, v1, key);
                    lemma_insert_get(bk, bv, k1, v1);
                },
                None => {
                    lemma_get_other_insert(bk, bv, k1, v1, key);
                    lemma_insert_get(bk, bv, k1, v1);
                },
            }
        }
        match json_get(b, k1) {
            Some(e) => if is_table(e) && is_table(v1) {
            } else {
                lemma_insert_get(bk, bv, k1, v1);
            },
            None => {
                lemma_insert_get(bk, bv, k1, v1);
            },
        }
    } else {
        assert(ok.take(0) =~= Seq::<Seq<char>>::empty());
    }
}

/// Laying a document over another: a key the overlay sets takes the
/// overlay's value (merged into the base's when both are tables), a key
/// it does not set keeps the base's value. Table keys are unique.
pub proof fn law_merge_overrides(base: JsonV, overlay: JsonV, key: Seq<char>)
    requires
        is_table(base),
        is_table(overlay),
        overlay->Object_0.no_duplicates(),
    ensures
        json_get(merge_v(base, overlay), key) == match json_get(overlay, key) {
            Some(o) => Some(laid_over(json_get(base, key), o)),
            None => json_get(base, key),
        },
{
    let ok = overlay->Object_0;
    let ov = overlay->Object_1;
    lemma_merge_members(base, ok, ov, key, ov.len() as int);
    assert(ok.take(ov.len() as int) =~= ok);
    lemma_members_get_first(ok, ov, key);
    ok.index_of_first_ensures(key);
}

} // verus!
