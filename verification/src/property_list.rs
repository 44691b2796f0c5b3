//! Property lists: the values that requests and responses carry.

use crate::failure::Failure;
use crate::late_dates::{
    could_hold_date, disguise, disguised, is_binary, is_late, may_hold_date, names_late_moment,
};
use crate::text::{chars_of, same_text};
use plist::Value;
use vstd::prelude::*;
use vstd::slice::*;

verus! {

/// A property list value.
pub enum Node {
    Array(Vec<Node>),
    Dictionary(Vec<Entry>),
    Boolean(bool),
    Data(Vec<u8>),
    Unsigned(u64),
    Signed(i64),
    Text(String),
    /// A date, a real number or a reference: kinds of value that nothing here reads.
    Other,
}

/// A dictionary entry.
pub struct Entry {
    pub key: String,
    pub value: Node,
}

/// What a property list value holds.
pub enum Tree {
    Array(Seq<Tree>),
    Dictionary(Seq<(Seq<char>, Tree)>),
    Boolean(bool),
    Data(Seq<u8>),
    Unsigned(u64),
    Signed(i64),
    Text(Seq<char>),
    Other,
}

impl Node {
    pub open spec fn tree(self) -> Tree
        decreases self,
    {
        match self {
            Node::Array(items) => Tree::Array(
                Seq::new(
                    items@.len(),
                    |i: int|
                        if 0 <= i < items@.len() {
                            items@[i].tree()
                        } else {
                            Tree::Other
                        },
                ),
            ),
            Node::Dictionary(entries) => Tree::Dictionary(
                Seq::new(
                    entries@.len(),
                    |i: int|
                        if 0 <= i < entries@.len() {
                            (entries@[i].key@, entries@[i].value.tree())
                        } else {
                            (Seq::empty(), Tree::Other)
                        },
                ),
            ),
            Node::Boolean(value) => Tree::Boolean(value),
            Node::Data(bytes) => Tree::Data(bytes@),
            Node::Unsigned(value) => Tree::Unsigned(value),
            Node::Signed(value) => Tree::Signed(value),
            Node::Text(text) => Tree::Text(text@),
            Node::Other => Tree::Other,
        }
    }
}

/// The value of the first entry with the given key, where the tree is a dictionary that has one.
pub open spec fn lookup(tree: Tree, key: Seq<char>) -> Option<Tree> {
    match tree {
        Tree::Dictionary(entries) => entry_for(entries, key),
        _ => None,
    }
}

pub open spec fn entry_for(entries: Seq<(Seq<char>, Tree)>, key: Seq<char>) -> Option<Tree>
    decreases entries.len(),
{
    if entries.len() == 0 {
        None
    } else if entries[0].0 == key {
        Some(entries[0].1)
    } else {
        entry_for(entries.drop_first(), key)
    }
}

/// What an optional value holds.
pub open spec fn tree_of(node: Option<&Node>) -> Option<Tree> {
    match node {
        Some(node) => Some(node.tree()),
        None => None,
    }
}

/// Looks up a key in a dictionary.
pub fn get<'a>(node: &'a Node, key: &str) -> (r: Option<&'a Node>)
    ensures
        tree_of(r) == lookup(node.tree(), key@),
{
    match node {
        Node::Dictionary(entries) => {
            let ghost all = node.tree()->Dictionary_0;
            let mut at: usize = 0;
            assert(all.subrange(0, all.len() as int) == all);
            while at < entries.len()
                invariant
                    at <= entries@.len(),
                    all.len() == entries@.len(),
                    forall|i: int|
                        0 <= i < all.len() ==> #[trigger] all[i] == (
                            entries@[i].key@,
                            entries@[i].value.tree(),
                        ),
                    lookup(node.tree(), key@) == entry_for(
                        all.subrange(at as int, all.len() as int),
                        key@,
                    ),
                decreases entries@.len() - at,
            {
                let ghost rest = all.subrange(at as int, all.len() as int);
                assert(rest[0] == all[at as int]);
                if same_text(entries[at].key.as_str(), key) {
                    return Some(&entries[at].value);
                }
                assert(rest.drop_first() == all.subrange(at + 1, all.len() as int));
                at = at + 1;
            }
            None
        },
        _ => None,
    }
}

/// The 64 bits of an integer value: a negative number keeps its two's complement form.
pub open spec fn integer_bits(tree: Tree) -> Option<u64> {
    match tree {
        Tree::Unsigned(value) => Some(value),
        Tree::Signed(value) => Some(
            (if value >= 0 {
                value as int
            } else {
                value + 0x1_0000_0000_0000_0000
            }) as u64,
        ),
        _ => None,
    }
}

/// The integer under a key of a dictionary.
pub open spec fn integer_in(tree: Tree, key: Seq<char>) -> Option<u64> {
    match lookup(tree, key) {
        Some(value) => integer_bits(value),
        None => None,
    }
}

fn bits(node: &Node) -> (r: Option<u64>)
    ensures
        r == integer_bits(node.tree()),
{
    match node {
        Node::Unsigned(value) => Some(*value),
        Node::Signed(value) => {
            let signed: i64 = *value;
            assert(signed >= 0 ==> signed as u64 == signed) by (bit_vector);
            assert(signed < 0 ==> signed as u64 == signed + 0x1_0000_0000_0000_0000) by (bit_vector);
            Some(signed as u64)
        },
        _ => None,
    }
}

/// Reads the integer under a key.
pub fn integer(node: &Node, key: &str) -> (r: Option<u64>)
    ensures
        r == integer_in(node.tree(), key@),
{
    match get(node, key) {
        Some(value) => bits(value),
        None => None,
    }
}

/// Every signed clock identifier is read back with all of its 64 bits.
pub proof fn signed_identifiers_keep_all_bits(key: Seq<char>, value: i64, other: i64)
    ensures
        integer_in(Tree::Dictionary(seq![(key, Tree::Signed(value))]), key) is Some,
        value != other ==> integer_in(Tree::Dictionary(seq![(key, Tree::Signed(value))]), key)
            != integer_in(Tree::Dictionary(seq![(key, Tree::Signed(other))]), key),
{
}

/// The flag under a key of a dictionary.
pub open spec fn boolean_in(tree: Tree, key: Seq<char>) -> Option<bool> {
    match lookup(tree, key) {
        Some(Tree::Boolean(value)) => Some(value),
        _ => None,
    }
}

/// Reads the flag under a key.
pub fn boolean(node: &Node, key: &str) -> (r: Option<bool>)
    ensures
        r == boolean_in(node.tree(), key@),
{
    match get(node, key) {
        Some(Node::Boolean(value)) => Some(*value),
        _ => None,
    }
}

/// Whether the text under a key of a dictionary is the given one.
pub open spec fn text_in(tree: Tree, key: Seq<char>) -> Option<Seq<char>> {
    match lookup(tree, key) {
        Some(Tree::Text(text)) => Some(text),
        _ => None,
    }
}

/// Whether a key holds exactly the given text.
pub fn has_text(node: &Node, key: &str, text: &str) -> (r: bool)
    ensures
        r == (text_in(node.tree(), key@) == Some(text@)),
{
    match get(node, key) {
        Some(Node::Text(found)) => same_text(found.as_str(), text),
        _ => false,
    }
}

/// The keys of a dictionary are all different.
pub open spec fn distinct_keys(entries: Seq<(Seq<char>, Tree)>) -> bool {
    forall|i: int, j: int|
        0 <= i < j < entries.len() ==> (#[trigger] entries[i]).0 != (#[trigger] entries[j]).0
}

/// The one form in which a value is read: distinct keys, signed integers only where negative,
/// and only kinds of value that are looked into.
pub open spec fn canonical(tree: Tree) -> bool
    decreases tree,
{
    match tree {
        Tree::Array(items) => forall|i: int| 0 <= i < items.len() ==> canonical(#[trigger] items[i]),
        Tree::Dictionary(entries) => distinct_keys(entries) && forall|i: int|
            0 <= i < entries.len() ==> canonical((#[trigger] entries[i]).1),
        Tree::Signed(value) => value < 0,
        Tree::Other => false,
        _ => true,
    }
}

/// A value that can be written: no dictionary has a key twice, and every kind of value is one
/// that is looked into.
pub open spec fn writable(tree: Tree) -> bool
    decreases tree,
{
    match tree {
        Tree::Array(items) => forall|i: int| 0 <= i < items.len() ==> writable(#[trigger] items[i]),
        Tree::Dictionary(entries) => distinct_keys(entries) && forall|i: int|
            0 <= i < entries.len() ==> writable((#[trigger] entries[i]).1),
        Tree::Other => false,
        _ => true,
    }
}

/// The form in which a value is read back: an integer is unsigned unless it is negative.
pub open spec fn normal(tree: Tree) -> Tree
    decreases tree,
{
    match tree {
        Tree::Array(items) => Tree::Array(
            Seq::new(
                items.len(),
                |i: int|
                    if 0 <= i < items.len() {
                        normal(items[i])
                    } else {
                        Tree::Other
                    },
            ),
        ),
        Tree::Dictionary(entries) => Tree::Dictionary(
            Seq::new(
                entries.len(),
                |i: int|
                    if 0 <= i < entries.len() {
                        (entries[i].0, normal(entries[i].1))
                    } else {
                        (Seq::empty(), Tree::Other)
                    },
            ),
        ),
        Tree::Signed(value) => if value >= 0 {
            Tree::Unsigned(value as u64)
        } else {
            tree
        },
        _ => tree,
    }
}

/// The normal form of a value that can be written is canonical.
pub proof fn normal_values_are_canonical(tree: Tree)
    requires
        writable(tree),
    ensures
        canonical(normal(tree)),
    decreases tree,
{
    match tree {
        Tree::Array(items) => {
            assert forall|i: int| 0 <= i < items.len() implies canonical(
                #[trigger] normal(tree)->Array_0[i],
            ) by {
                assert(decreases_to!(tree => tree->Array_0));
                assert(decreases_to!(items => items[i]));
                normal_values_are_canonical(items[i]);
            }
        },
        Tree::Dictionary(entries) => {
            let all = normal(tree)->Dictionary_0;
            assert forall|i: int| 0 <= i < all.len() implies canonical((#[trigger] all[i]).1) by {
                assert(decreases_to!(tree => tree->Dictionary_0));
                assert(decreases_to!(entries => entries[i]));
                assert(decreases_to!(entries[i] => entries[i].1));
                normal_values_are_canonical(entries[i].1);
            }
            assert forall|i: int, j: int| 0 <= i < j < all.len() implies (#[trigger] all[i]).0 != (
            #[trigger] all[j]).0 by {
                assert(entries[i].0 != entries[j].0);
            }
        },
        _ => {},
    }
}

/// A canonical value can be written and is its own normal form.
pub proof fn canonical_values_are_normal(tree: Tree)
    requires
        canonical(tree),
    ensures
        writable(tree),
        normal(tree) == tree,
    decreases tree,
{
    match tree {
        Tree::Array(items) => {
            assert forall|i: int| 0 <= i < items.len() implies writable(#[trigger] items[i])
                && normal(items[i]) == items[i] by {
                assert(decreases_to!(tree => tree->Array_0));
                assert(decreases_to!(items => items[i]));
                canonical_values_are_normal(items[i]);
            }
            assert(normal(tree)->Array_0 =~= items);
        },
        Tree::Dictionary(entries) => {
            assert forall|i: int| 0 <= i < entries.len() implies writable(
                (#[trigger] entries[i]).1,
            ) && normal(entries[i].1) == entries[i].1 by {
                assert(decreases_to!(tree => tree->Dictionary_0));
                assert(decreases_to!(entries => entries[i]));
                assert(decreases_to!(entries[i] => entries[i].1));
                canonical_values_are_normal(entries[i].1);
            }
            assert(normal(tree)->Dictionary_0 =~= entries);
        },
        _ => {},
    }
}

/// The disguise of a list holds a date past the last year.
pub open spec fn has_late(tree: Tree) -> bool
    decreases tree,
{
    match tree {
        Tree::Array(items) => exists|i: int| 0 <= i < items.len() && has_late(#[trigger] items[i]),
        Tree::Dictionary(entries) => exists|i: int|
            0 <= i < entries.len() && has_late((#[trigger] entries[i]).1),
        Tree::Text(text) => text.len() > 0 && text.last() == '1' && is_late(text.drop_last()),
        _ => false,
    }
}

fn holds_late(node: &Node) -> (r: bool)
    ensures
        r == has_late(node.tree()),
    decreases *node,
{
    match node {
        Node::Array(items) => {
            let ghost all = node.tree()->Array_0;
            let mut at: usize = 0;
            while at < items.len()
                invariant
                    at <= items@.len(),
                    *node == Node::Array(*items),
                    all == node.tree()->Array_0,
                    forall|i: int| 0 <= i < at ==> !has_late(#[trigger] all[i]),
                decreases items@.len() - at,
            {
                assert(all[at as int] == items@[at as int].tree());
                if holds_late(&items[at]) {
                    return true;
                }
                at = at + 1;
            }
            false
        },
        Node::Dictionary(entries) => {
            let ghost all = node.tree()->Dictionary_0;
            let mut at: usize = 0;
            while at < entries.len()
                invariant
                    at <= entries@.len(),
                    *node == Node::Dictionary(*entries),
                    all == node.tree()->Dictionary_0,
                    forall|i: int| 0 <= i < at ==> !has_late((#[trigger] all[i]).1),
                decreases entries@.len() - at,
            {
                assert(all[at as int].1 == entries@[at as int].value.tree());
                if holds_late(&entries[at].value) {
                    return true;
                }
                at = at + 1;
            }
            false
        },
        Node::Text(text) => {
            let mut chars = chars_of(text.as_str());
            match chars.pop() {
                Some(last) => last == '1' && names_late_moment(&chars),
                None => false,
            }
        },
        _ => false,
    }
}

/// Reading the list does not come upon a date past the last year: it has no date element, or its
/// disguise can be read and shows no such date.
pub open spec fn readable(data: Seq<u8>) -> bool {
    !may_hold_date(data) || match plist_tree(disguised(data, 0)) {
        Some(tree) => !has_late(tree),
        None => false,
    }
}

/// What a list holds, where it can be read: it is well formed, and holds no date past the last
/// year.
pub open spec fn read_tree(data: Seq<u8>) -> Option<Tree> {
    if readable(data) {
        plist_tree(data)
    } else {
        None
    }
}

/// The binary form of a property list.
pub uninterp spec fn plist_bytes(tree: Tree) -> Seq<u8>;

/// What a property list in any of its encodings holds, or nothing where it is malformed.
pub uninterp spec fn plist_tree(data: Seq<u8>) -> Option<Tree>;

/// What an outside value holds.
pub uninterp spec fn value_tree(value: Value) -> Tree;

/// `plist::Value`, the outside form of a property list value.
#[verifier::external_type_specification]
#[verifier::external_body]
pub struct ExValue(plist::Value);

/// `plist::Error`, carried through without being looked into.
#[verifier::external_type_specification]
#[verifier::external_body]
pub struct ExError(plist::Error);

/// What several outside values hold.
pub open spec fn value_trees(values: Seq<Value>) -> Seq<Tree> {
    values.map_values(|value: Value| value_tree(value))
}

/// What an outside value is made from.
enum Material {
    Array(Vec<Value>),
    Dictionary(Vec<(String, Value)>),
    Boolean(bool),
    Data(Vec<u8>),
    Unsigned(u64),
    Signed(i64),
    Text(String),
    Other,
}

impl Material {
    spec fn tree(self) -> Tree {
        match self {
            Material::Array(items) => Tree::Array(value_trees(items@)),
            Material::Dictionary(entries) => Tree::Dictionary(
                entries@.map_values(|entry: (String, Value)| (entry.0@, value_tree(entry.1))),
            ),
            Material::Boolean(value) => Tree::Boolean(value),
            Material::Data(bytes) => Tree::Data(bytes@),
            Material::Unsigned(value) => Tree::Unsigned(value),
            Material::Signed(value) => Tree::Signed(value),
            Material::Text(text) => Tree::Text(text@),
            Material::Other => Tree::Other,
        }
    }

    /// A dictionary has no key twice, and an integer is signed only where it is negative.
    spec fn plain(self) -> bool {
        match self.tree() {
            Tree::Dictionary(entries) => distinct_keys(entries),
            Tree::Signed(value) => value < 0,
            _ => true,
        }
    }
}

/// The variants of `plist::Value`, each made from what it holds; a dictionary is collected entry
/// by entry, so that it keeps their order. With no key twice, and no signed integer that an
/// unsigned one could hold, the value holds exactly that. What is no value of the library's
/// becomes a reference.
#[verifier::external_body]
fn assemble(material: Material) -> (r: Value)
    ensures
        material.plain() ==> value_tree(r) == material.tree(),
{
    match material {
        Material::Array(items) => Value::Array(items),
        Material::Dictionary(entries) => Value::Dictionary(entries.into_iter().collect()),
        Material::Boolean(value) => Value::Boolean(value),
        Material::Data(bytes) => Value::Data(bytes),
        Material::Unsigned(value) => Value::Integer(value.into()),
        Material::Signed(value) => Value::Integer(value.into()),
        Material::Text(text) => Value::String(text),
        Material::Other => Value::Uid(plist::Uid::new(0)),
    }
}

/// What an outside value consists of. An integer is given as an unsigned and as a signed number,
/// where it fits.
enum Parts<'a> {
    Array(&'a Vec<Value>),
    Dictionary(Vec<(&'a String, &'a Value)>),
    Boolean(bool),
    Data(&'a Vec<u8>),
    Integer(Option<u64>, Option<i64>),
    Text(&'a String),
    Other,
}

impl<'a> Parts<'a> {
    spec fn tree(self) -> Tree {
        match self {
            Parts::Array(items) => Tree::Array(value_trees(items@)),
            Parts::Dictionary(entries) => Tree::Dictionary(
                entries@.map_values(|entry: (&String, &Value)| (entry.0@, value_tree(*entry.1))),
            ),
            Parts::Boolean(value) => Tree::Boolean(value),
            Parts::Data(bytes) => Tree::Data(bytes@),
            Parts::Integer(Some(value), _) => Tree::Unsigned(value),
            Parts::Integer(None, Some(value)) => Tree::Signed(value),
            Parts::Integer(None, None) => Tree::Other,
            Parts::Text(text) => Tree::Text(text@),
            Parts::Other => Tree::Other,
        }
    }
}

/// The variants of `plist::Value`, told apart; the entries of a dictionary come in its order. The
/// value holds what its parts hold. A date, a real number and a reference are not told apart.
#[verifier::external_body]
fn take_apart(value: &Value) -> (r: Parts<'_>)
    ensures
        r.tree() == value_tree(*value),
{
    match value {
        Value::Array(items) => Parts::Array(items),
        Value::Dictionary(entries) => Parts::Dictionary(entries.iter().collect()),
        Value::Boolean(value) => Parts::Boolean(*value),
        Value::Data(bytes) => Parts::Data(bytes),
        Value::Integer(value) => Parts::Integer(value.as_unsigned(), value.as_signed()),
        Value::String(text) => Parts::Text(text),
        _ => Parts::Other,
    }
}

/// The outside form of a value. An integer that is not negative goes out unsigned.
fn outside_value(node: &Node) -> (r: Value)
    ensures
        writable(node.tree()) ==> value_tree(r) == normal(node.tree()),
    decreases *node,
{
    match node {
        Node::Array(items) => {
            let ghost all = normal(node.tree())->Array_0;
            let mut values: Vec<Value> = Vec::new();
            let mut at: usize = 0;
            while at < items.len()
                invariant
                    at <= items@.len(),
                    at == values@.len(),
                    *node == Node::Array(*items),
                    all == normal(node.tree())->Array_0,
                    writable(node.tree()) ==> forall|i: int|
                        0 <= i < at ==> value_tree(#[trigger] values@[i]) == all[i],
                decreases items@.len() - at,
            {
                assert(node.tree()->Array_0[at as int] == items@[at as int].tree());
                assert(all[at as int] == normal(items@[at as int].tree()));
                values.push(outside_value(&items[at]));
                at = at + 1;
            }
            assert(writable(node.tree()) ==> value_trees(values@) =~= all);
            assemble(Material::Array(values))
        },
        Node::Dictionary(entries) => {
            let ghost all = normal(node.tree())->Dictionary_0;
            let mut values: Vec<(String, Value)> = Vec::new();
            let mut at: usize = 0;
            while at < entries.len()
                invariant
                    at <= entries@.len(),
                    at == values@.len(),
                    *node == Node::Dictionary(*entries),
                    all == normal(node.tree())->Dictionary_0,
                    writable(node.tree()) ==> forall|i: int|
                        0 <= i < at ==> (#[trigger] values@[i]).0@ == all[i].0 && value_tree(
                            values@[i].1,
                        ) == all[i].1,
                decreases entries@.len() - at,
            {
                assert(node.tree()->Dictionary_0[at as int] == (
                    entries@[at as int].key@,
                    entries@[at as int].value.tree(),
                ));
                assert(all[at as int] == (
                    entries@[at as int].key@,
                    normal(entries@[at as int].value.tree()),
                ));
                values.push((entries[at].key.clone(), outside_value(&entries[at].value)));
                at = at + 1;
            }
            let material = Material::Dictionary(values);
            proof {
                if writable(node.tree()) {
                    assert(material.tree()->Dictionary_0 =~= all);
                    normal_values_are_canonical(node.tree());
                }
            }
            assemble(material)
        },
        Node::Boolean(value) => assemble(Material::Boolean(*value)),
        Node::Data(bytes) => assemble(Material::Data(slice_to_vec(bytes.as_slice()))),
        Node::Unsigned(value) => assemble(Material::Unsigned(*value)),
        Node::Signed(value) => if *value >= 0 {
            assemble(Material::Unsigned(*value as u64))
        } else {
            assemble(Material::Signed(*value))
        },
        Node::Text(text) => assemble(Material::Text(text.clone())),
        Node::Other => assemble(Material::Other),
    }
}

/// The inside form of a value.
fn inside_value(value: &Value) -> (r: Node)
    ensures
        r.tree() == value_tree(*value),
    decreases value_tree(*value),
{
    match take_apart(value) {
        Parts::Array(items) => {
            let ghost all = value_tree(*value)->Array_0;
            let mut nodes: Vec<Node> = Vec::new();
            let mut at: usize = 0;
            while at < items.len()
                invariant
                    at <= items@.len(),
                    at == nodes@.len(),
                    value_tree(*value) == Tree::Array(all),
                    all == value_trees(items@),
                    forall|i: int| 0 <= i < at ==> (#[trigger] nodes@[i]).tree() == all[i],
                decreases items@.len() - at,
            {
                assert(all[at as int] == value_tree(items@[at as int]));
                assert(decreases_to!(value_tree(*value) => value_tree(*value)->Array_0));
                assert(decreases_to!(all => all[at as int]));
                nodes.push(inside_value(&items[at]));
                at = at + 1;
            }
            let r = Node::Array(nodes);
            assert(r.tree()->Array_0 =~= all);
            r
        },
        Parts::Dictionary(entries) => {
            let ghost all = value_tree(*value)->Dictionary_0;
            let mut nodes: Vec<Entry> = Vec::new();
            let mut at: usize = 0;
            while at < entries.len()
                invariant
                    at <= entries@.len(),
                    at == nodes@.len(),
                    value_tree(*value) == Tree::Dictionary(all),
                    all == entries@.map_values(
                        |entry: (&String, &Value)| (entry.0@, value_tree(*entry.1)),
                    ),
                    forall|i: int|
                        0 <= i < at ==> (#[trigger] nodes@[i]).key@ == all[i].0
                            && nodes@[i].value.tree() == all[i].1,
                decreases entries@.len() - at,
            {
                let entry = entries[at];
                assert(all[at as int] == (entry.0@, value_tree(*entry.1)));
                assert(decreases_to!(value_tree(*value) => value_tree(*value)->Dictionary_0));
                assert(decreases_to!(all => all[at as int]));
                assert(decreases_to!(all[at as int] => all[at as int].1));
                nodes.push(Entry { key: entry.0.clone(), value: inside_value(entry.1) });
                at = at + 1;
            }
            let r = Node::Dictionary(nodes);
            assert(r.tree()->Dictionary_0 =~= all);
            r
        },
        Parts::Boolean(value) => Node::Boolean(value),
        Parts::Data(bytes) => Node::Data(slice_to_vec(bytes.as_slice())),
        Parts::Integer(Some(value), _) => Node::Unsigned(value),
        Parts::Integer(None, Some(value)) => Node::Signed(value),
        Parts::Integer(None, None) => Node::Other,
        Parts::Text(text) => Node::Text(text.clone()),
        Parts::Other => Node::Other,
    }
}

/// `plist::Value::to_writer_binary` into memory. Of a canonical value the bytes are a function of
/// what it holds, writing them to memory does not fail, and reading them gives the value back:
/// integers, texts, data and flags are written in full, dictionaries and arrays in order. The
/// bytes begin with the mark of the binary form.
#[verifier::external_body]
fn encode(value: &Value) -> (r: Result<Vec<u8>, plist::Error>)
    ensures
        canonical(value_tree(*value)) ==> r is Ok,
        canonical(value_tree(*value)) ==> r->Ok_0@ == plist_bytes(value_tree(*value)),
        canonical(value_tree(*value)) ==> plist_tree(r->Ok_0@) == Some(value_tree(*value)),
        canonical(value_tree(*value)) ==> is_binary(r->Ok_0@),
{
    let mut data = vec![];
    value.to_writer_binary(&mut data).map(|()| data)
}

/// `plist::Value::from_reader` over the bytes. Whether they are a property list, and which value
/// they hold, depends on the bytes alone. A date element whose moment in UTC falls after the year
/// 9999 panics, so that lists with one are left out. Only lists in XML form have dates. The
/// disguise of such a list differs from it in letters and digits alone, never in a delimiter, and
/// so has the same markup: each date is a string there whose text has a `1` at its end, and where
/// the one is read up to a date past the last year, the other is read up to that string. A
/// dictionary is an array there, in which no value takes the place of another. Nothing is said of
/// values nested so deep, or shared so often, that reading them exhausts the stack or the memory.
#[verifier::external_body]
fn decode(data: &[u8]) -> (r: Result<Value, plist::Error>)
    requires
        readable(data@),
    ensures
        r is Ok <==> plist_tree(data@) is Some,
        r is Ok ==> plist_tree(data@) == Some(value_tree(r->Ok_0)),
{
    Value::from_reader(std::io::Cursor::new(data))
}

/// A value in binary form. Where it can be written, reading the bytes gives its normal form back.
pub fn binary(node: &Node) -> (r: Result<Vec<u8>, Failure>)
    ensures
        r matches Err(failure) ==> failure == Failure::PropertyList,
        writable(node.tree()) ==> r is Ok,
        writable(node.tree()) ==> r->Ok_0@ == plist_bytes(normal(node.tree())),
        writable(node.tree()) ==> read_tree(r->Ok_0@) == Some(normal(node.tree())),
{
    proof {
        if writable(node.tree()) {
            normal_values_are_canonical(node.tree());
        }
    }
    match encode(&outside_value(node)) {
        Ok(data) => Ok(data),
        Err(_) => Err(Failure::PropertyList),
    }
}

fn read(data: &[u8]) -> (r: Result<Node, Failure>)
    requires
        readable(data@),
    ensures
        match plist_tree(data@) {
            Some(tree) => r matches Ok(node) && node.tree() == tree,
            None => r matches Err(error) && error == Failure::PropertyList,
        },
{
    match decode(data) {
        Ok(value) => Ok(inside_value(&value)),
        Err(_) => Err(Failure::PropertyList),
    }
}

/// Reads a property list in any encoding. One with a date past the last year is refused.
pub fn parse(data: &[u8]) -> (r: Result<Node, Failure>)
    ensures
        match read_tree(data@) {
            Some(tree) => r matches Ok(node) && node.tree() == tree,
            None => r matches Err(error) && error == Failure::PropertyList,
        },
{
    if could_hold_date(data) {
        match read(disguise(data).as_slice()) {
            Ok(node) => {
                if holds_late(&node) {
                    return Err(Failure::PropertyList);
                }
            },
            Err(failure) => {
                return Err(failure);
            },
        }
    }
    read(data)
}

/// What the entries of a dictionary hold.
pub open spec fn entry_trees(entries: Seq<Entry>) -> Seq<(Seq<char>, Tree)> {
    entries.map_values(|entry: Entry| (entry.key@, entry.value.tree()))
}

/// Adds an entry behind the others.
pub fn put(entries: &mut Vec<Entry>, key: &str, value: Node)
    ensures
        entry_trees(final(entries)@) == entry_trees(old(entries)@).push((key@, value.tree())),
{
    entries.push(Entry { key: key.to_owned(), value });
    assert(entry_trees(entries@) =~= entry_trees(old(entries)@).push((key@, value.tree())));
}

/// A text value.
pub fn text(value: &str) -> (r: Node)
    ensures
        r.tree() == Tree::Text(value@),
{
    Node::Text(value.to_owned())
}

/// A dictionary of the given entries.
pub fn dictionary(entries: Vec<Entry>) -> (r: Node)
    ensures
        r.tree() == Tree::Dictionary(entry_trees(entries@)),
{
    let r = Node::Dictionary(entries);
    assert(r.tree()->Dictionary_0 =~= entry_trees(entries@));
    r
}

/// An array that holds one value.
pub fn singleton(item: Node) -> (r: Node)
    ensures
        r.tree() == Tree::Array(seq![item.tree()]),
{
    let mut items: Vec<Node> = Vec::new();
    items.push(item);
    let r = Node::Array(items);
    assert(r.tree()->Array_0 =~= seq![item.tree()]);
    r
}

/// A dictionary that holds one entry.
pub fn single(key: &str, value: Node) -> (r: Node)
    ensures
        r.tree() == Tree::Dictionary(seq![(key@, value.tree())]),
{
    let mut entries: Vec<Entry> = Vec::new();
    put(&mut entries, key, value);
    assert(entry_trees(entries@) =~= seq![(key@, value.tree())]);
    dictionary(entries)
}

/// A key is looked up in the first entry that has it, and only there.
pub proof fn entries_are_found_by_their_keys(
    entries: Seq<(Seq<char>, Tree)>,
    key: Seq<char>,
    at: int,
)
    requires
        0 <= at <= entries.len(),
        forall|i: int| 0 <= i < at ==> (#[trigger] entries[i]).0 != key,
        at < entries.len() ==> entries[at].0 == key,
    ensures
        lookup(Tree::Dictionary(entries), key) == (if at < entries.len() {
            Some(entries[at].1)
        } else {
            None
        }),
    decreases entries.len(),
{
    if at > 0 {
        let rest = entries.drop_first();
        assert(entries[0].0 != key);
        assert forall|i: int| 0 <= i < at - 1 implies (#[trigger] rest[i]).0 != key by {
            assert(rest[i] == entries[i + 1]);
        }
        entries_are_found_by_their_keys(rest, key, at - 1);
    }
}

/// An integer under a key is read with all of its bits: as it is where it is not negative, and in
/// two's complement where it is.
pub proof fn integers_are_read_whole(key: Seq<char>, tree: Tree)
    ensures
        ({
            let read = integer_in(Tree::Dictionary(seq![(key, tree)]), key);
            match tree {
                Tree::Unsigned(value) => read == Some(value),
                Tree::Signed(value) => read matches Some(bits) && (bits == value || bits - value
                    == 0x1_0000_0000_0000_0000),
                _ => read is None,
            }
        }),
{
}

/// The normal form of a value reads as the value does, under every key.
pub proof fn normal_values_read_alike(tree: Tree, key: Seq<char>)
    ensures
        integer_in(normal(tree), key) == integer_in(tree, key),
        boolean_in(normal(tree), key) == boolean_in(tree, key),
        text_in(normal(tree), key) == text_in(tree, key),
{
    if let Tree::Dictionary(entries) = tree {
        lemma_normal_entry(entries, key);
    }
}

proof fn lemma_normal_entry(entries: Seq<(Seq<char>, Tree)>, key: Seq<char>)
    ensures
        ({
            let all = normal(Tree::Dictionary(entries))->Dictionary_0;
            match entry_for(entries, key) {
                None => entry_for(all, key) is None,
                Some(value) => entry_for(all, key) == Some(normal(value)),
            }
        }),
    decreases entries.len(),
{
    if entries.len() > 0 {
        let all = normal(Tree::Dictionary(entries))->Dictionary_0;
        let rest = entries.drop_first();
        lemma_normal_entry(rest, key);
        assert(all.drop_first() =~= normal(Tree::Dictionary(rest))->Dictionary_0);
        assert(all[0] == (entries[0].0, normal(entries[0].1)));
    }
}

} // verus!
