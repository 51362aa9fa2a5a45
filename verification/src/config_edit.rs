//! Edits of the daemon's TOML configuration made over the control socket:
//! switching the gateway role on or off in `[gateway]`, and checking a
//! whole configuration text before it is saved.
//!
//! Parsing and printing are the `toml` crate's; the library reads the
//! parsed document as tables of entries and writes the gateway keys.
use vstd::prelude::*;
use vstd::string::StringExecFns;

use crate::text::str_eq;

verus! {

#[verifier::external_type_specification]
#[verifier::external_body]
pub struct ExTomlValue(toml::Value);

/// What `toml::from_str::<toml::Value>` gives for a text (`None` for a
/// parse error).
pub uninterp spec fn toml_parsed(text: Seq<char>) -> Option<toml::Value>;

/// The entries of a value that is a TOML table (`toml::Value::Table`), by
/// key; `None` for a value of any other kind.
pub uninterp spec fn toml_table_of(v: toml::Value) -> Option<Map<Seq<char>, toml::Value>>;

/// The table value holding exactly the given entries.
pub uninterp spec fn toml_table_from(m: Map<Seq<char>, toml::Value>) -> toml::Value;

/// `toml::Value::Boolean(b)`.
pub uninterp spec fn toml_bool(b: bool) -> toml::Value;

/// `toml::Value::String(s)`.
pub uninterp spec fn toml_string(s: Seq<char>) -> toml::Value;

/// `toml::Value::Integer(i)`.
pub uninterp spec fn toml_integer(i: i64) -> toml::Value;

/// What `toml::to_string_pretty` gives for a value (`None` for a
/// serialization error).
pub uninterp spec fn toml_pretty(v: toml::Value) -> Option<Seq<char>>;

/// Parses a configuration text (`toml::from_str::<toml::Value>`).
#[verifier::external_body]
fn parse_toml(text: &str) -> (r: Option<toml::Value>)
    ensures
        r == toml_parsed(text@),
{
    toml::from_str::<toml::Value>(text).ok()
}

/// The entries of a table value, each key once (a `toml::Table` is a map);
/// the value itself back when it is not a table.
#[verifier::external_body]
fn table_entries(v: toml::Value) -> (r: Result<Vec<(String, toml::Value)>, toml::Value>)
    ensures
        r is Ok <==> toml_table_of(v) is Some,
        r matches Ok(e) ==> distinct_keys(e@) && entries_map(e@) == toml_table_of(v)->0,
        r matches Err(w) ==> w == v,
{
    match v {
        toml::Value::Table(t) => Ok(t.into_iter().collect()),
        other => Err(other),
    }
}

/// The table value of entries with distinct keys
/// (`toml::Value::Table` of a map collected from them).
#[verifier::external_body]
fn table_value(entries: Vec<(String, toml::Value)>) -> (r: toml::Value)
    requires
        distinct_keys(entries@),
    ensures
        r == toml_table_from(entries_map(entries@)),
        toml_table_of(r) == Some(entries_map(entries@)),
{
    toml::Value::Table(entries.into_iter().collect())
}

/// `toml::Value::Boolean`.
#[verifier::external_body]
fn bool_value(b: bool) -> (r: toml::Value)
    ensures
        r == toml_bool(b),
{
    toml::Value::Boolean(b)
}

/// `toml::Value::String`.
#[verifier::external_body]
fn string_value(s: String) -> (r: toml::Value)
    ensures
        r == toml_string(s@),
{
    toml::Value::String(s)
}

/// `toml::Value::Integer`.
#[verifier::external_body]
fn integer_value(i: i64) -> (r: toml::Value)
    ensures
        r == toml_integer(i),
{
    toml::Value::Integer(i)
}

/// Prints a value as TOML (`toml::to_string_pretty`).
#[verifier::external_body]
fn print_toml(v: &toml::Value) -> (r: Option<String>)
    ensures
        r is Some <==> toml_pretty(*v) is Some,
        r matches Some(s) ==> toml_pretty(*v) == Some(s@),
{
    toml::to_string_pretty(v).ok()
}

pub open spec fn distinct_keys(e: Seq<(String, toml::Value)>) -> bool {
    forall|i: int, j: int| 0 <= i < j < e.len() ==> (#[trigger] e[i]).0@ != (#[trigger] e[j]).0@
}

/// The entries as a map from key to value.
pub open spec fn entries_map(e: Seq<(String, toml::Value)>) -> Map<Seq<char>, toml::Value> {
    Map::new(
        |k: Seq<char>| exists|i: int| 0 <= i < e.len() && (#[trigger] e[i]).0@ == k,
        |k: Seq<char>| e[choose|i: int| 0 <= i < e.len() && (#[trigger] e[i]).0@ == k].1,
    )
}

/// Why a configuration edit was refused.
#[derive(Debug, Clone, Copy, PartialEq, Eq, Structural)]
pub enum ConfigEditError {
    /// The current text is not TOML.
    Parse,
    /// The document's root is not a table.
    RootNotTable,
    /// `gateway` exists but is not a table.
    GatewayNotTable,
    /// The edited document could not be printed.
    Serialize,
}

/// The `[gateway]` entries after switching the role on: `enabled = true`,
/// the NAT interface, and the connection limit when one is given.
pub open spec fn gateway_on(g: Map<Seq<char>, toml::Value>, nat_interface: Seq<char>, max_connections: Option<u32>) -> Map<Seq<char>, toml::Value> {
    let m = g.insert("enabled"@, toml_bool(true)).insert("nat_interface"@, toml_string(nat_interface));
    match max_connections {
        Some(n) => m.insert("max_connections"@, toml_integer(n as i64)),
        None => m,
    }
}

/// The `[gateway]` entries after switching the role off.
pub open spec fn gateway_off(g: Map<Seq<char>, toml::Value>) -> Map<Seq<char>, toml::Value> {
    g.insert("enabled"@, toml_bool(false))
}

/// The `[gateway]` entries of a root table: its table, an empty one when
/// the key is absent, `None` when it holds something else.
pub open spec fn gateway_entries(root: Map<Seq<char>, toml::Value>) -> Option<Map<Seq<char>, toml::Value>> {
    if root.contains_key("gateway"@) {
        toml_table_of(root["gateway"@])
    } else {
        Some(Map::empty())
    }
}

/// Result of rewriting the configuration `text` with the `[gateway]`
/// entries edited by `edit`: every other key of the document is kept, and
/// the result is the printed edited document.
pub open spec fn edited_config(
    text: Seq<char>,
    edit: spec_fn(Map<Seq<char>, toml::Value>) -> Map<Seq<char>, toml::Value>,
) -> Result<Seq<char>, ConfigEditError> {
    match toml_parsed(text) {
        None => Err(ConfigEditError::Parse),
        Some(doc) => match toml_table_of(doc) {
            None => Err(ConfigEditError::RootNotTable),
            Some(root) => match gateway_entries(root) {
                None => Err(ConfigEditError::GatewayNotTable),
                Some(g) => match toml_pretty(
                    toml_table_from(root.insert("gateway"@, toml_table_from(edit(g)))),
                ) {
                    Some(s) => Ok(s),
                    None => Err(ConfigEditError::Serialize),
                },
            },
        },
    }
}

proof fn lemma_entries_get(e: Seq<(String, toml::Value)>, i: int)
    requires
        distinct_keys(e),
        0 <= i < e.len(),
    ensures
        entries_map(e).contains_key(e[i].0@),
        entries_map(e)[e[i].0@] == e[i].1,
{
    let k = e[i].0@;
    assert(exists|j: int| 0 <= j < e.len() && (#[trigger] e[j]).0@ == k);
    let c = choose|j: int| 0 <= j < e.len() && (#[trigger] e[j]).0@ == k;
    if c != i {
        if c < i {
            assert(e[c].0@ != e[i].0@);
        } else {
            assert(e[i].0@ != e[c].0@);
        }
    }
}

proof fn lemma_entries_update(e: Seq<(String, toml::Value)>, i: int, x: (String, toml::Value))
    requires
        distinct_keys(e),
        0 <= i <= e.len(),
        i < e.len() ==> e[i].0@ == x.0@,
        i == e.len() ==> forall|j: int| 0 <= j < e.len() ==> (#[trigger] e[j]).0@ != x.0@,
    ensures
        distinct_keys(if i < e.len() { e.update(i, x) } else { e.push(x) }),
        entries_map(if i < e.len() { e.update(i, x) } else { e.push(x) }) == entries_map(e).insert(
            x.0@,
            x.1,
        ),
{
    let w = if i < e.len() { e.update(i, x) } else { e.push(x) };
    assert(w[i] == x);
    assert forall|a: int, b: int| 0 <= a < b < w.len() implies (#[trigger] w[a]).0@ != (#[trigger] w[b]).0@ by {
        if a != i && b != i {
            assert(w[a] == e[a] && w[b] == e[b]);
        } else if a == i {
            assert(w[b] == e[b]);
            if i < e.len() {
                assert(e[a].0@ != e[b].0@);
            }
        } else {
            assert(w[a] == e[a]);
            if i < e.len() {
                assert(e[a].0@ != e[b].0@);
            }
        }
    }
    let m = entries_map(e).insert(x.0@, x.1);
    assert forall|k: Seq<char>| #[trigger] entries_map(w).contains_key(k) == m.contains_key(k) by {
        if k == x.0@ {
            assert(w[i].0@ == k);
        } else if m.contains_key(k) {
            let j = choose|j: int| 0 <= j < e.len() && (#[trigger] e[j]).0@ == k;
            assert(w[j] == e[j]);
        } else if entries_map(w).contains_key(k) {
            let j = choose|j: int| 0 <= j < w.len() && (#[trigger] w[j]).0@ == k;
            assert(j != i);
            assert(w[j] == e[j]);
        }
    }
    assert forall|k: Seq<char>| #[trigger] entries_map(w).contains_key(k) implies entries_map(w)[k] == m[k] by {
        if k == x.0@ {
            lemma_entries_get(w, i);
        } else {
            let j = choose|j: int| 0 <= j < w.len() && (#[trigger] w[j]).0@ == k;
            lemma_entries_get(w, j);
            assert(j != i);
            assert(w[j] == e[j]);
            lemma_entries_get(e, j);
        }
    }
    assert(entries_map(w) =~= m);
}

/// Position of `key` among the entries, if present.
fn find_key(e: &Vec<(String, toml::Value)>, key: &str) -> (r: Option<usize>)
    ensures
        r matches Some(i) ==> i < e@.len() && e@[i as int].0@ == key@,
        r is None ==> forall|j: int| 0 <= j < e@.len() ==> (#[trigger] e@[j]).0@ != key@,
{
    let mut i: usize = 0;
    while i < e.len()
        invariant
            i <= e@.len(),
            forall|j: int| 0 <= j < i ==> (#[trigger] e@[j]).0@ != key@,
        decreases e@.len() - i,
    {
        if str_eq(e[i].0.as_str(), key) {
            return Some(i);
        }
        i = i + 1;
    }
    None
}

/// Sets `key` to `value`, replacing an entry with the same key.
fn set_entry(e: &mut Vec<(String, toml::Value)>, key: &str, value: toml::Value)
    requires
        distinct_keys(old(e)@),
    ensures
        distinct_keys(final(e)@),
        entries_map(final(e)@) == entries_map(old(e)@).insert(key@, value),
{
    let k = String::from_str(key);
    let x = (k, value);
    let ghost before = e@;
    match find_key(e, key) {
        Some(i) => {
            proof {
                lemma_entries_update(before, i as int, x);
            }
            e.set(i, x);
        },
        None => {
            proof {
                lemma_entries_update(before, before.len() as int, x);
            }
            e.push(x);
        },
    }
}

proof fn lemma_entries_remove(e: Seq<(String, toml::Value)>, i: int)
    requires
        distinct_keys(e),
        0 <= i < e.len(),
    ensures
        distinct_keys(e.remove(i)),
        entries_map(e.remove(i)) == entries_map(e).remove(e[i].0@),
{
    let w = e.remove(i);
    let gone = e[i].0@;
    assert forall|a: int, b: int| 0 <= a < b < w.len() implies (#[trigger] w[a]).0@ != (#[trigger] w[b]).0@ by {
        let a2 = if a < i { a } else { a + 1 };
        let b2 = if b < i { b } else { b + 1 };
        assert(w[a] == e[a2] && w[b] == e[b2]);
        assert(e[a2].0@ != e[b2].0@);
    }
    let m = entries_map(e).remove(gone);
    assert forall|k: Seq<char>| #[trigger] entries_map(w).contains_key(k) == m.contains_key(k) by {
        if entries_map(w).contains_key(k) {
            let j = choose|j: int| 0 <= j < w.len() && (#[trigger] w[j]).0@ == k;
            let j2 = if j < i { j } else { j + 1 };
            assert(w[j] == e[j2]);
            if k == gone {
                if j2 < i {
                    assert(e[j2].0@ != e[i].0@);
                } else {
                    assert(e[i].0@ != e[j2].0@);
                }
            }
        }
        if m.contains_key(k) {
            let j = choose|j: int| 0 <= j < e.len() && (#[trigger] e[j]).0@ == k;
            assert(j != i);
            if j < i {
                assert(w[j] == e[j]);
            } else {
                assert(w[j - 1] == e[j]);
            }
        }
    }
    assert forall|k: Seq<char>| #[trigger] entries_map(w).contains_key(k) implies entries_map(w)[k] == m[k] by {
        let j = choose|j: int| 0 <= j < w.len() && (#[trigger] w[j]).0@ == k;
        let j2 = if j < i { j } else { j + 1 };
        assert(w[j] == e[j2]);
        lemma_entries_get(w, j);
        lemma_entries_get(e, j2);
    }
    assert(entries_map(w) =~= m);
}

/// Parses a document and takes its `[gateway]` entries out of the root
/// table (an empty table when the key is absent).
fn open_gateway(text: &str) -> (r: Result<(Vec<(String, toml::Value)>, Vec<(String, toml::Value)>), ConfigEditError>)
    ensures
        r matches Ok((rest, g)) ==> {
            &&& distinct_keys(rest@)
            &&& distinct_keys(g@)
            &&& toml_parsed(text@) is Some
            &&& toml_table_of(toml_parsed(text@)->0) is Some
            &&& entries_map(rest@) == toml_table_of(toml_parsed(text@)->0)->0.remove("gateway"@)
            &&& gateway_entries(toml_table_of(toml_parsed(text@)->0)->0) == Some(entries_map(g@))
        },
        r matches Err(err) ==> (match toml_parsed(text@) {
            None => err == ConfigEditError::Parse,
            Some(doc) => match toml_table_of(doc) {
                None => err == ConfigEditError::RootNotTable,
                Some(root) => gateway_entries(root) is None && err == ConfigEditError::GatewayNotTable,
            },
        }),
{
    let doc = match parse_toml(text) {
        Some(d) => d,
        None => return Err(ConfigEditError::Parse),
    };
    let mut root = match table_entries(doc) {
        Ok(e) => e,
        Err(_) => return Err(ConfigEditError::RootNotTable),
    };
    let ghost before = root@;
    match find_key(&root, "gateway") {
        Some(i) => {
            proof {
                lemma_entries_get(before, i as int);
                lemma_entries_remove(before, i as int);
            }
            let (_, gv) = root.remove(i);
            proof {
                assert(root@ =~= before.remove(i as int));
            }
            match table_entries(gv) {
                Ok(g) => Ok((root, g)),
                Err(_) => Err(ConfigEditError::GatewayNotTable),
            }
        },
        None => {
            let g: Vec<(String, toml::Value)> = Vec::new();
            proof {
                assert(!entries_map(before).contains_key("gateway"@));
                assert(entries_map(before).remove("gateway"@) =~= entries_map(before));
                assert(entries_map(g@) =~= Map::<Seq<char>, toml::Value>::empty());
            }
            Ok((root, g))
        },
    }
}

/// Puts the edited `[gateway]` entries back into the root and prints the
/// document.
fn close_gateway(rest: Vec<(String, toml::Value)>, g: Vec<(String, toml::Value)>) -> (r: Result<String, ConfigEditError>)
    requires
        distinct_keys(rest@),
        distinct_keys(g@),
    ensures
        ({
            let doc = toml_table_from(entries_map(rest@).insert("gateway"@, toml_table_from(entries_map(g@))));
            match toml_pretty(doc) {
                Some(s) => r matches Ok(t) && t@ == s,
                None => r == Err::<String, ConfigEditError>(ConfigEditError::Serialize),
            }
        }),
{
    let mut rest = rest;
    let gt = table_value(g);
    set_entry(&mut rest, "gateway", gt);
    let doc = table_value(rest);
    match print_toml(&doc) {
        Some(s) => Ok(s),
        None => Err(ConfigEditError::Serialize),
    }
}

/// Configuration text after `gateway.enable`: `[gateway]` gets
/// `enabled = true`, `nat_interface`, and `max_connections` when given;
/// every other key of the document stays.
pub fn gateway_enable_config(current: &str, nat_interface: &str, max_connections: Option<u32>) -> (r: Result<String, ConfigEditError>)
    ensures
        match edited_config(current@, |g: Map<Seq<char>, toml::Value>| gateway_on(g, nat_interface@, max_connections)) {
            Ok(s) => r matches Ok(t) && t@ == s,
            Err(e) => r == Err::<String, ConfigEditError>(e),
        },
{
    let (rest, mut g) = match open_gateway(current) {
        Ok(p) => p,
        Err(e) => return Err(e),
    };
    let ghost g0 = entries_map(g@);
    set_entry(&mut g, "enabled", bool_value(true));
    set_entry(&mut g, "nat_interface", string_value(String::from_str(nat_interface)));
    match max_connections {
        Some(n) => {
            set_entry(&mut g, "max_connections", integer_value(n as i64));
        },
        None => {},
    }
    proof {
        let root = toml_table_of(toml_parsed(current@)->0)->0;
        assert(entries_map(g@) =~= gateway_on(g0, nat_interface@, max_connections));
        assert(entries_map(rest@).insert("gateway"@, toml_table_from(entries_map(g@))) =~= root.insert(
            "gateway"@,
            toml_table_from(gateway_on(g0, nat_interface@, max_connections)),
        ));
    }
    close_gateway(rest, g)
}

/// Configuration text after `gateway.disable`: `[gateway]` gets
/// `enabled = false`; every other key of the document stays.
pub fn gateway_disable_config(current: &str) -> (r: Result<String, ConfigEditError>)
    ensures
        match edited_config(current@, |g: Map<Seq<char>, toml::Value>| gateway_off(g)) {
            Ok(s) => r matches Ok(t) && t@ == s,
            Err(e) => r == Err::<String, ConfigEditError>(e),
        },
{
    let (rest, mut g) = match open_gateway(current) {
        Ok(p) => p,
        Err(e) => return Err(e),
    };
    let ghost g0 = entries_map(g@);
    set_entry(&mut g, "enabled", bool_value(false));
    proof {
        let root = toml_table_of(toml_parsed(current@)->0)->0;
        assert(entries_map(rest@).insert("gateway"@, toml_table_from(entries_map(g@))) =~= root.insert(
            "gateway"@,
            toml_table_from(gateway_off(g0)),
        ));
    }
    close_gateway(rest, g)
}

/// Whether a configuration text handed to `config.save` is TOML; a text
/// that is not is refused before anything is written.
pub fn config_text_is_toml(text: &str) -> (ok: bool)
    ensures
        ok == toml_parsed(text@) is Some,
{
    parse_toml(text).is_some()
}

} // verus!
