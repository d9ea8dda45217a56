//! Configuration files and ordered maps, as the crates `hk_parser` and
//! `indexmap` provide them.
use vstd::prelude::*;
use hk_parser::{HkError, HkValue};
use indexmap::IndexMap;

use crate::pattern::{cut_at_text, cut_text, has_prefix, occurs, position_unique, skip_chars, starts_with};
use crate::text::{is_empty_text, is_white, lines, run, run_end, run_unique, same, split_lines, strs, substring, to_chars, trim_start, trim_start_class, trim_white, trimmed, trimming_takes_white_ends, what_is_white, CharClass};

verus! {

// ---------------------------------------------------------------------------
// Ordered maps
// ---------------------------------------------------------------------------

/// `indexmap::IndexMap`: a map that keeps the order in which keys were put in.
#[verifier::external_type_specification]
#[verifier::external_body]
#[verifier::reject_recursive_types(K)]
#[verifier::reject_recursive_types(V)]
#[verifier::reject_recursive_types(S)]
pub struct ExIndexMap<K, V, S>(indexmap::IndexMap<K, V, S>);

/// The entries of an ordered map from text to text, in their order.
pub uninterp spec fn map_pairs(m: IndexMap<String, String>) -> Seq<(Seq<char>, Seq<char>)>;

/// The position of the first entry with a key, or the number of entries.
pub open spec fn pair_index<V>(s: Seq<(Seq<char>, V)>, key: Seq<char>) -> int
    decreases s.len(),
{
    if s.len() == 0 || s[0].0 == key {
        0
    } else {
        1 + pair_index(s.drop_first(), key)
    }
}

/// The value of the first entry with a key.
pub open spec fn pair_value<V>(s: Seq<(Seq<char>, V)>, key: Seq<char>) -> Option<V> {
    let i = pair_index(s, key);
    if i < s.len() {
        Some(s[i].1)
    } else {
        None
    }
}

/// The entries with a value put under a key: in place of the one that is
/// there, or else at the end.
pub open spec fn pair_put(
    s: Seq<(Seq<char>, Seq<char>)>,
    key: Seq<char>,
    value: Seq<char>,
) -> Seq<(Seq<char>, Seq<char>)> {
    let i = pair_index(s, key);
    if i < s.len() {
        s.update(i, (key, value))
    } else {
        s.push((key, value))
    }
}

/// `IndexMap::new`: a map without entries.
#[verifier::external_body]
pub(crate) fn map_new() -> (r: IndexMap<String, String>)
    ensures
        map_pairs(r) == Seq::<(Seq<char>, Seq<char>)>::empty(),
{
    IndexMap::new()
}

/// `IndexMap::insert`: an entry whose key is there keeps its place and gets the
/// new value; another goes to the end.
#[verifier::external_body]
pub(crate) fn map_insert(m: &mut IndexMap<String, String>, key: String, value: String)
    ensures
        map_pairs(*final(m)) == pair_put(map_pairs(*old(m)), key@, value@),
{
    m.insert(key, value);
}

/// `IndexMap::get`: the value under a key.
#[verifier::external_body]
pub(crate) fn map_get<'a>(m: &'a IndexMap<String, String>, key: &str) -> (r: Option<&'a String>)
    ensures
        match r {
            Some(v) => pair_value(map_pairs(*m), key@) == Some(v@),
            None => pair_value(map_pairs(*m), key@) is None,
        },
{
    m.get(key)
}

/// `IndexMap::len`: the number of entries.
#[verifier::external_body]
pub(crate) fn map_len(m: &IndexMap<String, String>) -> (r: usize)
    ensures
        r == map_pairs(*m).len(),
{
    m.len()
}

/// `IndexMap::get_index`: the entry at a position.
#[verifier::external_body]
pub(crate) fn map_entry(m: &IndexMap<String, String>, i: usize) -> (r: (&String, &String))
    requires
        i < map_pairs(*m).len(),
    ensures
        (r.0@, r.1@) == map_pairs(*m)[i as int],
{
    m.get_index(i).unwrap()
}

/// The first entry with a key is where `pair_index` says.
pub proof fn pair_index_is<V>(s: Seq<(Seq<char>, V)>, key: Seq<char>, i: int)
    requires
        0 <= i <= s.len(),
        forall|j: int| 0 <= j < i ==> (#[trigger] s[j]).0 != key,
        i < s.len() ==> s[i].0 == key,
    ensures
        pair_index(s, key) == i,
    decreases s.len(),
{
    if i > 0 {
        let t = s.drop_first();
        assert(s[0].0 != key);
        assert forall|j: int| 0 <= j < i - 1 implies (#[trigger] t[j]).0 != key by {
            assert(t[j] == s[j + 1]);
        }
        pair_index_is(t, key, i - 1);
    }
}

// ---------------------------------------------------------------------------
// Configuration values
// ---------------------------------------------------------------------------

/// `hk_parser::HkValue`: a value of a configuration file.
#[verifier::external_type_specification]
#[verifier::external_body]
pub struct ExHkValue(hk_parser::HkValue);

/// `hk_parser::HkError`: why a configuration file cannot be read.
#[verifier::external_type_specification]
#[verifier::external_body]
pub struct ExHkError(hk_parser::HkError);

/// A value of a configuration file, as a mathematical value.
pub enum ConfigTree {
    Text(Seq<char>),
    /// A number, as it is written in decimal.
    Number(Seq<char>),
    Flag(bool),
    List(Seq<ConfigTree>),
    Table(Seq<(Seq<char>, ConfigTree)>),
}

/// A value of a configuration file.
#[derive(Debug)]
pub enum ConfigValue {
    Text(String),
    /// A number, as it is written in decimal.
    Number(String),
    Flag(bool),
    List(Vec<ConfigValue>),
    Table(Vec<(String, ConfigValue)>),
}

impl ConfigValue {
    /// The value as a mathematical value.
    pub open spec fn tree(self) -> ConfigTree
        decreases self,
    {
        match self {
            ConfigValue::Text(s) => ConfigTree::Text(s@),
            ConfigValue::Number(s) => ConfigTree::Number(s@),
            ConfigValue::Flag(b) => ConfigTree::Flag(b),
            ConfigValue::List(v) => ConfigTree::List(list_tree(v@)),
            ConfigValue::Table(v) => ConfigTree::Table(table_tree(v@)),
        }
    }
}

/// The items of a list as a mathematical value.
pub open spec fn list_tree(s: Seq<ConfigValue>) -> Seq<ConfigTree>
    decreases s,
{
    if s.len() == 0 {
        Seq::empty()
    } else {
        list_tree(s.drop_last()).push(s.last().tree())
    }
}

/// The entries of a table as a mathematical value.
pub open spec fn table_tree(s: Seq<(String, ConfigValue)>) -> Seq<(Seq<char>, ConfigTree)>
    decreases s,
{
    if s.len() == 0 {
        Seq::empty()
    } else {
        table_tree(s.drop_last()).push((s.last().0@, s.last().1.tree()))
    }
}

/// The entries of a table keep their places.
pub proof fn table_tree_at(s: Seq<(String, ConfigValue)>)
    ensures
        table_tree(s).len() == s.len(),
        forall|i: int|
            0 <= i < s.len() ==> #[trigger] table_tree(s)[i] == (s[i].0@, s[i].1.tree()),
    decreases s.len(),
{
    if s.len() > 0 {
        table_tree_at(s.drop_last());
    }
}

/// What a value of `hk_parser` holds.
pub uninterp spec fn hk_tree(v: HkValue) -> ConfigTree;

/// The entries of a table of `hk_parser`, in their order.
pub uninterp spec fn hk_table(t: IndexMap<String, HkValue>) -> Seq<(Seq<char>, ConfigTree)>;

/// What `hk_parser` reads a text as; `None` where it refuses it.
pub uninterp spec fn hk_parsed(text: Seq<char>) -> Option<Seq<(Seq<char>, ConfigTree)>>;

/// What the items of a list of `hk_parser` hold.
pub open spec fn hk_items(s: Seq<HkValue>) -> Seq<ConfigTree> {
    s.map_values(|v: HkValue| hk_tree(v))
}

/// One level of a value of `hk_parser`.
enum Shape<'a> {
    Text(String),
    Number(String),
    Flag(bool),
    List(&'a Vec<HkValue>),
    Table(&'a IndexMap<String, HkValue>),
}

/// The variants of `hk_parser::HkValue`, with a number as `as_string` writes it.
#[verifier::external_body]
fn hk_shape(v: &HkValue) -> (r: Shape<'_>)
    ensures
        match r {
            Shape::Text(s) => hk_tree(*v) == ConfigTree::Text(s@),
            Shape::Number(s) => hk_tree(*v) == ConfigTree::Number(s@),
            Shape::Flag(b) => hk_tree(*v) == ConfigTree::Flag(b),
            Shape::List(a) => hk_tree(*v) == ConfigTree::List(hk_items(a@)),
            Shape::Table(t) => hk_tree(*v) == ConfigTree::Table(hk_table(*t)),
        },
{
    match v {
        HkValue::String(s) => Shape::Text(s.clone()),
        HkValue::Number(n) => Shape::Number(n.to_string()),
        HkValue::Bool(b) => Shape::Flag(*b),
        HkValue::Array(a) => Shape::List(a),
        HkValue::Map(m) => Shape::Table(m),
    }
}

/// `IndexMap::len`: the number of entries of a table.
#[verifier::external_body]
fn hk_len(t: &IndexMap<String, HkValue>) -> (r: usize)
    ensures
        r == hk_table(*t).len(),
{
    t.len()
}

/// `IndexMap::get_index`: the entry of a table at a position.
#[verifier::external_body]
fn hk_entry(t: &IndexMap<String, HkValue>, i: usize) -> (r: (&String, &HkValue))
    requires
        i < hk_table(*t).len(),
    ensures
        (r.0@, hk_tree(*r.1)) == hk_table(*t)[i as int],
{
    t.get_index(i).unwrap()
}

/// What was met on the way through a text: the brackets that are open, and
/// whether the next character is quoted or escaped.
pub struct Brackets {
    pub depth: int,
    pub quoted: bool,
    pub escaped: bool,
}

/// What is met with one more character. Brackets count outside quotes, and a
/// backslash inside quotes escapes what follows it.
pub open spec fn bracket_step(b: Brackets, c: char) -> Brackets {
    if b.escaped {
        Brackets { escaped: false, ..b }
    } else if c == '\\' && b.quoted {
        Brackets { escaped: true, ..b }
    } else if c == '"' {
        Brackets { quoted: !b.quoted, ..b }
    } else if c == '[' && !b.quoted {
        Brackets { depth: b.depth + 1, ..b }
    } else if c == ']' && !b.quoted {
        Brackets { depth: b.depth - 1, ..b }
    } else {
        b
    }
}

/// What is met on the way through a text.
pub open spec fn brackets(s: Seq<char>) -> Brackets
    decreases s.len(),
{
    if s.len() == 0 {
        Brackets { depth: 0, quoted: false, escaped: false }
    } else {
        bracket_step(brackets(s.drop_last()), s.last())
    }
}

/// Whether a text leaves a bracket open.
pub open spec fn is_open(s: Seq<char>) -> bool {
    brackets(s).depth > 0
}

/// The value that a line gives a key: what stands behind dashes, a `>`, a key and
/// a `=>`.
pub open spec fn entry_value(line: Seq<char>) -> Option<Seq<char>> {
    let t = trim_start(line, CharClass::White);
    let r = trim_start(t.skip(run(t, CharClass::Is('-'), true)), CharClass::White);
    let g = trim_start(r.skip(1), CharClass::White);
    if has_prefix(t, "-"@) && has_prefix(r, ">"@) {
        match cut_text(g, "=>"@) {
            Some((k, v)) => if trimmed(k).len() == 0 || trimmed(k) == "\"\""@ {
                None
            } else {
                Some(trimmed(v))
            },
            None => None,
        }
    } else {
        None
    }
}

/// Where the list that begins with `buf` ends: behind the first line that closes
/// its brackets.
pub open spec fn list_end(all: Seq<Seq<char>>, i: int, buf: Seq<char>) -> int
    decreases all.len() - i,
{
    if i >= all.len() {
        i
    } else if is_open(buf + "\n"@ + all[i]) {
        list_end(all, i + 1, buf + "\n"@ + all[i])
    } else {
        i + 1
    }
}

/// A list ends at or behind the line from which its end is looked for.
pub proof fn list_end_bounds(all: Seq<Seq<char>>, i: int, buf: Seq<char>)
    ensures
        list_end(all, i, buf) >= i,
        i <= all.len() ==> list_end(all, i, buf) <= all.len(),
    decreases all.len() - i,
{
    if i < all.len() && is_open(buf + "\n"@ + all[i]) {
        list_end_bounds(all, i + 1, buf + "\n"@ + all[i]);
    }
}

/// Whether a line gives a key a value that is a list which goes on below it.
pub open spec fn begins_list(value: Option<Seq<char>>) -> bool {
    value matches Some(v) && has_prefix(v, "["@) && is_open(v)
}

/// Whether one of the lines from the `i`-th on gives a key a value that is a
/// quotation mark and nothing else. The lines inside of a list give no values to
/// keys.
pub open spec fn lone_quote_from(all: Seq<Seq<char>>, i: int) -> bool
    decreases all.len() - i,
{
    if i >= all.len() {
        false
    } else {
        let value = entry_value(all[i]);
        proof {
            list_end_bounds(all, i + 1, value->0);
        }
        if begins_list(value) {
            lone_quote_from(all, list_end(all, i + 1, value->0))
        } else {
            value == Some("\""@) || lone_quote_from(all, i + 1)
        }
    }
}

/// Whether a text gives a key a lone quotation mark.
pub open spec fn has_lone_quote(text: Seq<char>) -> bool {
    lone_quote_from(lines(text), 0)
}

fn leaves_open(s: &str) -> (r: bool)
    ensures
        r == is_open(s@),
{
    let v = to_chars(s);
    let mut depth: i128 = 0;
    let mut quoted = false;
    let mut escaped = false;
    let mut i: usize = 0;
    assert(v@.take(0) =~= Seq::<char>::empty());
    while i < v.len()
        invariant
            i <= v@.len(),
            -i <= depth <= i,
            brackets(v@.take(i as int)) == (Brackets { depth: depth as int, quoted, escaped }),
        decreases v@.len() - i,
    {
        let c = v[i];
        proof {
            let longer = v@.take(i + 1);
            assert(longer.drop_last() =~= v@.take(i as int));
            assert(longer.last() == c);
        }
        if escaped {
            escaped = false;
        } else if c == '\\' && quoted {
            escaped = true;
        } else if c == '"' {
            quoted = !quoted;
        } else if c == '[' && !quoted {
            depth = depth + 1;
        } else if c == ']' && !quoted {
            depth = depth - 1;
        }
        i = i + 1;
    }
    assert(v@.take(v@.len() as int) =~= v@);
    depth > 0
}

fn value_in(line: &str) -> (r: Option<String>)
    ensures
        match r {
            Some(v) => entry_value(line@) == Some(v@),
            None => entry_value(line@) is None,
        },
{
    let t = trim_start_class(line, CharClass::White);
    if !starts_with(t.as_str(), "-") {
        return None;
    }
    let chars = to_chars(t.as_str());
    assert(chars@.skip(0) =~= chars@);
    let d = run_end(&chars, 0, CharClass::Is('-'), true);
    let n = chars.len();
    let rest = substring(&chars, d, n);
    assert(rest@ =~= t@.skip(d as int));
    let r = trim_start_class(rest.as_str(), CharClass::White);
    if !starts_with(r.as_str(), ">") {
        return None;
    }
    proof {
        reveal_strlit(">");
    }
    let behind = skip_chars(r.as_str(), 1);
    let g = trim_start_class(behind.as_str(), CharClass::White);
    match cut_at_text(g.as_str(), "=>") {
        None => None,
        Some((k, v)) => {
            let key = trim_white(k.as_str());
            if is_empty_text(key.as_str()) || same(key.as_str(), "\"\"") {
                None
            } else {
                Some(trim_white(v.as_str()))
            }
        },
    }
}

fn end_of_list(all: &Vec<String>, from: usize, start: &str) -> (r: usize)
    requires
        from <= all@.len(),
    ensures
        from <= r <= all@.len(),
        r == list_end(strs(all@), from as int, start@),
{
    let mut buf = start.to_owned();
    let mut i: usize = from;
    while i < all.len()
        invariant
            from <= i <= all@.len(),
            list_end(strs(all@), i as int, buf@) == list_end(strs(all@), from as int, start@),
        decreases all@.len() - i,
    {
        assert(strs(all@)[i as int] == all@[i as int]@);
        buf.append("\n");
        buf.append(all[i].as_str());
        i = i + 1;
        if !leaves_open(buf.as_str()) {
            return i;
        }
    }
    i
}

fn find_lone_quote(text: &str) -> (r: bool)
    ensures
        r == has_lone_quote(text@),
{
    let all = split_lines(text);
    let mut i: usize = 0;
    while i < all.len()
        invariant
            i <= all@.len(),
            strs(all@) == lines(text@),
            lone_quote_from(strs(all@), i as int) == has_lone_quote(text@),
        decreases all@.len() - i,
    {
        assert(strs(all@)[i as int] == all@[i as int]@);
        let value = value_in(all[i].as_str());
        match value {
            None => {
                i = i + 1;
            },
            Some(v) => {
                if starts_with(v.as_str(), "[") && leaves_open(v.as_str()) {
                    i = end_of_list(&all, i + 1, v.as_str());
                } else if same(v.as_str(), "\"") {
                    return true;
                } else {
                    i = i + 1;
                }
            },
        }
    }
    false
}

/// `hk_parser::parse_hk`: what it reads a text as, or that it refuses it, is a
/// function of the text alone. A key whose value is a lone quotation mark makes
/// it panic; it panics on nothing else. How deep lists can be nested depends on the stack, as it does in
/// `convert_list`.
#[verifier::external_body]
fn parse_hk(text: &str) -> (r: Result<IndexMap<String, HkValue>, HkError>)
    requires
        !has_lone_quote(text@),
    ensures
        match r {
            Ok(c) => hk_parsed(text@) == Some(hk_table(c)),
            Err(_) => hk_parsed(text@) is None,
        },
{
    hk_parser::parse_hk(text)
}

/// Whether no text in a value holds `mark`.
pub open spec fn lacks(t: ConfigTree, mark: Seq<char>) -> bool
    decreases t,
{
    match t {
        ConfigTree::Text(s) => !occurs(s, mark),
        ConfigTree::List(s) => list_lacks(s, mark),
        ConfigTree::Table(s) => table_lacks(s, mark),
        _ => true,
    }
}

/// Whether no text in a list holds `mark`.
pub open spec fn list_lacks(s: Seq<ConfigTree>, mark: Seq<char>) -> bool
    decreases s,
{
    s.len() == 0 || (list_lacks(s.drop_last(), mark) && lacks(s.last(), mark))
}

/// Whether no text in a table holds `mark`.
pub open spec fn table_lacks(s: Seq<(Seq<char>, ConfigTree)>, mark: Seq<char>) -> bool
    decreases s,
{
    s.len() == 0 || (table_lacks(s.drop_last(), mark) && lacks(s.last().1, mark))
}

/// Whether a table holds no reference.
pub open spec fn plain_table(s: Seq<(Seq<char>, ConfigTree)>) -> bool {
    table_lacks(s, "${"@)
}

/// Whether a table holds no reference to an environment variable.
pub open spec fn no_env_table(s: Seq<(Seq<char>, ConfigTree)>) -> bool {
    table_lacks(s, "${env:"@)
}

/// Whether a value is another one with at most those of its texts changed that
/// hold a reference.
pub open spec fn filled(t: ConfigTree, u: ConfigTree) -> bool
    decreases t,
{
    match t {
        ConfigTree::Text(s) => u matches ConfigTree::Text(v) && (occurs(s, "${"@) || v == s),
        ConfigTree::List(s) => u matches ConfigTree::List(v) && filled_list(s, v),
        ConfigTree::Table(s) => u matches ConfigTree::Table(v) && filled_table(s, v),
        _ => u == t,
    }
}

/// Whether a list is another one with at most those of its texts changed that
/// hold a reference.
pub open spec fn filled_list(s: Seq<ConfigTree>, v: Seq<ConfigTree>) -> bool
    decreases s,
{
    s.len() == v.len() && (s.len() == 0 || (filled_list(s.drop_last(), v.drop_last()) && filled(
        s.last(),
        v.last(),
    )))
}

/// Whether a table is another one, with the same keys, and with at most those of
/// its texts changed that hold a reference.
pub open spec fn filled_table(
    s: Seq<(Seq<char>, ConfigTree)>,
    v: Seq<(Seq<char>, ConfigTree)>,
) -> bool
    decreases s,
{
    s.len() == v.len() && (s.len() == 0 || (filled_table(s.drop_last(), v.drop_last())
        && s.last().0 == v.last().0 && filled(s.last().1, v.last().1)))
}

/// What `hk_parser` makes of a table without references to environment variables
/// when it puts values in place of references; `None` where a reference leads
/// nowhere, or round in a circle, or to what is no text.
pub uninterp spec fn hk_resolved(t: Seq<(Seq<char>, ConfigTree)>) -> Option<Seq<(Seq<char>, ConfigTree)>>;

/// `hk_parser::resolve_interpolations`: puts values in place of the references
/// to them. References `${env:...}` name environment variables; without any, what
/// comes out is a function of the table alone. Whatever they name, only texts that
/// hold a reference change, and a table without references stays as it is. How
/// long a chain of references can be depends on the stack.
#[verifier::external_body]
fn resolve_interpolations(c: &mut IndexMap<String, HkValue>) -> (r: Result<(), HkError>)
    ensures
        no_env_table(hk_table(*old(c))) ==> match r {
            Ok(_) => hk_resolved(hk_table(*old(c))) == Some(hk_table(*final(c))),
            Err(_) => hk_resolved(hk_table(*old(c))) is None,
        },
        plain_table(hk_table(*old(c))) ==> r is Ok && hk_table(*final(c)) == hk_table(*old(c)),
        r is Ok ==> filled_table(hk_table(*old(c)), hk_table(*final(c))),
{
    hk_parser::resolve_interpolations(c)
}

fn convert_value(v: &HkValue) -> (r: ConfigValue)
    ensures
        r.tree() == hk_tree(*v),
    decreases hk_tree(*v),
{
    match hk_shape(v) {
        Shape::Text(s) => ConfigValue::Text(s),
        Shape::Number(s) => ConfigValue::Number(s),
        Shape::Flag(b) => ConfigValue::Flag(b),
        Shape::List(a) => {
            assert(decreases_to!(hk_tree(*v) => hk_tree(*v)->List_0));
            ConfigValue::List(convert_list(a))
        },
        Shape::Table(t) => {
            assert(decreases_to!(hk_tree(*v) => hk_tree(*v)->Table_0));
            ConfigValue::Table(convert_table(t))
        },
    }
}

fn convert_list(a: &Vec<HkValue>) -> (r: Vec<ConfigValue>)
    ensures
        list_tree(r@) == hk_items(a@),
    decreases hk_items(a@),
{
    let mut out: Vec<ConfigValue> = Vec::new();
    let ghost all = hk_items(a@);
    let mut i: usize = 0;
    assert(all.take(0) =~= list_tree(out@));
    while i < a.len()
        invariant
            i <= a@.len(),
            all == hk_items(a@),
            list_tree(out@) == all.take(i as int),
        decreases a@.len() - i,
    {
        proof {
            assert(decreases_to!(hk_items(a@) => hk_items(a@)[i as int]));
        }
        let value = convert_value(&a[i]);
        let ghost before = out@;
        out.push(value);
        proof {
            assert(out@.drop_last() =~= before);
            assert(all.take(i + 1) =~= all.take(i as int).push(all[i as int]));
        }
        i = i + 1;
    }
    assert(all.take(all.len() as int) =~= all);
    out
}

fn convert_table(t: &IndexMap<String, HkValue>) -> (r: Vec<(String, ConfigValue)>)
    ensures
        table_tree(r@) == hk_table(*t),
    decreases hk_table(*t),
{
    let mut out: Vec<(String, ConfigValue)> = Vec::new();
    let n = hk_len(t);
    let mut i: usize = 0;
    assert(hk_table(*t).take(0) =~= table_tree(out@));
    while i < n
        invariant
            i <= n,
            n == hk_table(*t).len(),
            table_tree(out@) == hk_table(*t).take(i as int),
        decreases n - i,
    {
        let (k, v) = hk_entry(t, i);
        proof {
            let pair = hk_table(*t)[i as int];
            assert(decreases_to!(hk_table(*t) => hk_table(*t)[i as int]));
            assert(decreases_to!(pair => pair.1));
        }
        let value = convert_value(v);
        let ghost before = out@;
        out.push((k.clone(), value));
        proof {
            assert(out@.drop_last() =~= before);
            assert(hk_table(*t).take(i + 1) =~= hk_table(*t).take(i as int).push(
                hk_table(*t)[i as int],
            ));
        }
        i = i + 1;
    }
    assert(hk_table(*t).take(n as int) =~= hk_table(*t));
    out
}

/// The text of a file as it is handed to the parser: its lines, each with a
/// line feed behind it.
pub open spec fn file_text(all: Seq<Seq<char>>) -> Seq<char>
    decreases all.len(),
{
    if all.len() == 0 {
        Seq::empty()
    } else {
        file_text(all.drop_last()) + all.last() + "\n"@
    }
}

fn with_line_feeds(content: &str) -> (r: String)
    ensures
        r@ == file_text(lines(content@)),
{
    let all = split_lines(content);
    let mut out = String::new();
    let mut i: usize = 0;
    let ghost s = strs(all@);
    assert(s.take(0) =~= Seq::<Seq<char>>::empty());
    assert(out@ =~= Seq::<char>::empty());
    while i < all.len()
        invariant
            i <= all@.len(),
            s == strs(all@),
            out@ == file_text(s.take(i as int)),
        decreases all@.len() - i,
    {
        proof {
            let longer = s.take(i + 1);
            assert(longer.drop_last() =~= s.take(i as int));
            assert(longer.last() == all@[i as int]@);
        }
        out.append(all[i].as_str());
        out.append("\n");
        i = i + 1;
    }
    assert(s.take(s.len() as int) =~= s);
    out
}

/// Why a configuration cannot be read.
#[derive(Debug)]
pub enum ConfigError {
    /// A value in it is a lone quotation mark.
    LoneQuote,
    /// Its text is not one.
    Unreadable(HkError),
    /// A reference in it leads nowhere, or round in a circle.
    Unresolved(HkError),
}

/// Reads a configuration, with values in place of the references to them.
///
/// References may name environment variables. Of a configuration with such
/// references it is promised that, where they can be resolved, only texts that hold
/// references are changed.
pub fn read_config(content: &str) -> (r: Result<Vec<(String, ConfigValue)>, ConfigError>)
    ensures
        (r matches Err(ConfigError::LoneQuote)) == has_lone_quote(file_text(lines(content@))),
        !has_lone_quote(file_text(lines(content@))) ==> match hk_parsed(
            file_text(lines(content@)),
        ) {
            None => r matches Err(ConfigError::Unreadable(_)),
            Some(t) => {
                &&& no_env_table(t) ==> match hk_resolved(t) {
                    Some(u) => r is Ok && table_tree(r->Ok_0@) == u,
                    None => r matches Err(ConfigError::Unresolved(_)),
                }
                &&& plain_table(t) ==> r is Ok && table_tree(r->Ok_0@) == t
                &&& match r {
                    Ok(c) => filled_table(t, table_tree(c@)),
                    Err(e) => e is Unresolved,
                }
            },
        },
{
    let text = with_line_feeds(content);
    if find_lone_quote(text.as_str()) {
        return Err(ConfigError::LoneQuote);
    }
    match parse_hk(text.as_str()) {
        Err(e) => Err(ConfigError::Unreadable(e)),
        Ok(parsed) => {
            let mut c = parsed;
            match resolve_interpolations(&mut c) {
                Err(e) => Err(ConfigError::Unresolved(e)),
                Ok(_) => Ok(convert_table(&c)),
            }
        },
    }
}

/// The value under a key is that of the first entry with the key; there is none exactly
/// where no entry has it.
pub proof fn value_is_that_of_the_first<V>(s: Seq<(Seq<char>, V)>, key: Seq<char>)
    ensures
        match pair_value(s, key) {
            Some(v) => exists|i: int|
                0 <= i < s.len() && #[trigger] s[i] == (key, v) && forall|j: int|
                    0 <= j < i ==> (#[trigger] s[j]).0 != key,
            None => forall|j: int| 0 <= j < s.len() ==> (#[trigger] s[j]).0 != key,
        },
{
    if exists|i: int| 0 <= i < s.len() && (#[trigger] s[i]).0 == key {
        let i = choose|i: int| 0 <= i < s.len() && (#[trigger] s[i]).0 == key;
        first_with_key(s, key, i);
        let k = choose|k: int|
            0 <= k < s.len() && (#[trigger] s[k]).0 == key && forall|j: int|
                0 <= j < k ==> (#[trigger] s[j]).0 != key;
        pair_index_is(s, key, k);
        assert(s[k] == (key, s[k].1));
    } else {
        pair_index_is(s, key, s.len() as int);
    }
}

proof fn first_with_key<V>(s: Seq<(Seq<char>, V)>, key: Seq<char>, i: int)
    requires
        0 <= i < s.len(),
        s[i].0 == key,
    ensures
        exists|k: int|
            0 <= k < s.len() && (#[trigger] s[k]).0 == key && forall|j: int|
                0 <= j < k ==> (#[trigger] s[j]).0 != key,
    decreases i,
{
    if exists|j: int| 0 <= j < i && (#[trigger] s[j]).0 == key {
        let j = choose|j: int| 0 <= j < i && (#[trigger] s[j]).0 == key;
        first_with_key(s, key, j);
    }
}

/// A value that is put under a key is found there, and nothing else changes; a new key
/// comes last.
pub proof fn put_value_is_found(
    s: Seq<(Seq<char>, Seq<char>)>,
    key: Seq<char>,
    value: Seq<char>,
    other: Seq<char>,
)
    requires
        other != key,
    ensures
        pair_value(pair_put(s, key, value), key) == Some(value),
        pair_value(pair_put(s, key, value), other) == pair_value(s, other),
        pair_value(s, key) is None ==> pair_put(s, key, value) == s.push((key, value)),
        pair_value(s, key) is Some ==> pair_put(s, key, value).len() == s.len(),
{
    let r = pair_put(s, key, value);
    value_is_that_of_the_first(s, key);
    value_is_that_of_the_first(s, other);
    value_is_that_of_the_first(r, key);
    value_is_that_of_the_first(r, other);
    let i: int = match pair_value(s, key) {
        Some(v) => choose|i: int|
            0 <= i < s.len() && #[trigger] s[i] == (key, v) && forall|j: int| 0 <= j < i ==> (#[trigger] s[j]).0 != key,
        None => s.len() as int,
    };
    pair_index_is(s, key, i);
    assert(r[i] == (key, value));
    assert forall|j: int| 0 <= j < i implies (#[trigger] r[j]).0 != key by {
        assert(r[j] == s[j]);
    }
    pair_index_is(r, key, i);
    let k: int = match pair_value(s, other) {
        Some(v) => choose|k: int|
            0 <= k < s.len() && #[trigger] s[k] == (other, v) && forall|j: int|
                0 <= j < k ==> (#[trigger] s[j]).0 != other,
        None => r.len() as int,
    };
    assert forall|j: int| 0 <= j < k implies (#[trigger] r[j]).0 != other by {
        if j != i {
            assert(r[j] == s[j]);
        }
    }
    if k < s.len() {
        assert(r[k] == s[k]);
    }
    pair_index_is(r, other, k);
    if pair_value(s, other) is Some {
        pair_index_is(s, other, k);
    }
}

/// Outside of quotation marks each opening bracket goes in and each closing one out; what
/// stands between quotation marks does neither.
pub proof fn brackets_outside_of_quotes_count(s: Seq<char>, t: Seq<char>)
    requires
        !brackets(s).quoted,
        !brackets(s).escaped,
        forall|i: int| 0 <= i < t.len() ==> #[trigger] t[i] != '"' && t[i] != '\\',
    ensures
        brackets(s.push('[')).depth == brackets(s).depth + 1,
        brackets(s.push(']')).depth == brackets(s).depth - 1,
        brackets(s.push('"') + t.push('"')) == brackets(s),
{
    assert(s.push('[').drop_last() =~= s);
    assert(s.push(']').drop_last() =~= s);
    assert(s.push('"').drop_last() =~= s);
    quoted_text(s.push('"'), t);
    let all = s.push('"') + t.push('"');
    assert(all.drop_last() =~= s.push('"') + t);
    assert(all.last() == '"');
}

proof fn quoted_text(s: Seq<char>, t: Seq<char>)
    requires
        brackets(s).quoted,
        !brackets(s).escaped,
        forall|i: int| 0 <= i < t.len() ==> #[trigger] t[i] != '"' && t[i] != '\\',
    ensures
        brackets(s + t) == brackets(s),
    decreases t.len(),
{
    if t.len() == 0 {
        assert(s + t =~= s);
    } else {
        let u = t.drop_last();
        assert forall|i: int| 0 <= i < u.len() implies #[trigger] u[i] != '"' && u[i] != '\\' by {
            assert(u[i] == t[i]);
        }
        quoted_text(s, u);
        assert((s + t).drop_last() =~= s + u);
        assert((s + t).last() == t[t.len() - 1]);
    }
}

/// A line that gives a key a value gives it what stands behind the sign.
pub proof fn line_gives_its_value(key: Seq<char>, value: Seq<char>)
    requires
        key.len() > 0,
        forall|i: int| 0 <= i < key.len() ==> #[trigger] key[i] != '=' && key[i] != '"' && !is_white(key[i]),
        value.len() > 0 ==> !is_white(value[0]) && !is_white(value.last()),
    ensures
        entry_value("-> "@ + (key + " => "@ + value)) == Some(value),
{
    reveal_strlit("-> ");
    reveal_strlit(" => ");
    reveal_strlit("=>");
    reveal_strlit("-");
    reveal_strlit(">");
    reveal_strlit("\"\"");
    what_is_white('-');
    what_is_white('>');
    what_is_white(' ');
    let white = CharClass::White;
    let rest = key + " => "@ + value;
    let line = "-> "@ + rest;
    assert(line[0] == '-' && line[1] == '>' && line[2] == ' ');
    assert(run(line, white, true) == 0);
    assert(line.skip(0) =~= line);
    let t = trim_start(line, white);
    assert(t == line);
    run_unique(line, CharClass::Is('-'), true, 1);
    let r0 = line.skip(1);
    assert(r0[0] == '>');
    assert(run(r0, white, true) == 0);
    assert(r0.skip(0) =~= r0);
    let g0 = r0.skip(1);
    assert(g0 =~= " "@ + rest) by {
        reveal_strlit(" ");
    }
    assert(g0[0] == ' ' && g0[1] == key[0]);
    assert forall|i: int| 0 <= i < 1 implies white.has(#[trigger] g0[i]) == true by {}
    run_unique(g0, white, true, 1);
    assert(g0.skip(1) =~= rest);
    assert(line.take(1) =~= "-"@);
    assert(r0.take(1) =~= ">"@);
    let n: int = (key.len() + 1) as int;
    assert(rest.skip(n).take(2) =~= "=>"@);
    assert forall|j: int| 0 <= j < n implies !has_prefix(#[trigger] rest.skip(j), "=>"@) by {
        if has_prefix(rest.skip(j), "=>"@) {
            assert(rest.skip(j).take(2)[0] == '=');
            assert(rest[j] == '=');
            if j < key.len() {
                assert(rest[j] == key[j]);
            }
        }
    }
    position_unique(rest, "=>"@, n);
    let a = rest.take(n);
    let b = rest.skip(n + 2);
    assert(a =~= Seq::<char>::empty() + key + seq![' ']);
    assert(b =~= seq![' '] + value + Seq::<char>::empty());
    trimming_takes_white_ends(Seq::empty(), key, seq![' ']);
    trimming_takes_white_ends(seq![' '], value, Seq::empty());
    assert("\"\""@[0] == '"');
    assert(key[0] != '"');
}

/// The text that is read is the lines with a line feed behind each.
pub proof fn every_line_ends_with_a_feed(all: Seq<Seq<char>>, line: Seq<char>)
    ensures
        file_text(all.push(line)) == file_text(all) + line + "\n"@,
        file_text(Seq::empty()) == Seq::<char>::empty(),
{
    assert(all.push(line).drop_last() =~= all);
}

} // verus!
