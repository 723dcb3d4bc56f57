//! The calls into `toml_edit` that the editor makes, each behind a trusted item whose
//! contract is stated over the entries model of `toml_model`. The names below stand
//! for what a `toml_edit` value holds; every contract says, over them, what the crate's
//! source does to it.
use vstd::prelude::*;
use toml_edit::{Array, DocumentMut, Item, Table, TomlError, Value};
use crate::toml_model::{
    as_item, as_table, graft, is_table_item, leaf, shows_all, under, unmarked, ArrayElem, Entries, TomlNode,
};

verus! {

#[verifier::external_type_specification]
#[verifier::external_body]
pub struct ExDocumentMut(DocumentMut);

#[verifier::external_type_specification]
#[verifier::external_body]
pub struct ExTable(Table);

#[verifier::external_type_specification]
#[verifier::external_body]
pub struct ExItem(Item);

#[verifier::external_type_specification]
#[verifier::external_body]
pub struct ExValue(Value);

#[verifier::external_type_specification]
#[verifier::external_body]
pub struct ExArray(Array);

#[verifier::external_type_specification]
#[verifier::external_body]
pub struct ExTomlError(TomlError);

/// What a document holds: the entries of its root item.
pub uninterp spec fn doc_entries(d: DocumentMut) -> Entries;

/// What a table holds: its entries.
pub uninterp spec fn table_entries(t: Table) -> Entries;

/// What an item holds: its own node at the empty path, and below it what its table holds.
pub uninterp spec fn item_entries(i: Item) -> Entries;

/// Whether a table is marked implicit (`Table::is_implicit`).
pub uninterp spec fn table_implicit(t: Table) -> bool;

/// What an array holds, slot by slot.
pub uninterp spec fn array_elems(a: Array) -> Seq<ArrayElem>;

/// What a value holds.
pub uninterp spec fn value_node(v: Value) -> TomlNode;

/// The entries of the root item of the document that `toml_edit` parses from `text`,
/// or `None` when it refuses the text.
pub uninterp spec fn parsed_toml(text: Seq<char>) -> Option<Entries>;

/// An array slot holding the value node `n`.
pub open spec fn elem_of(n: TomlNode) -> ArrayElem {
    match n {
        TomlNode::Str(s) => ArrayElem::Str(s),
        _ => ArrayElem::NonStr,
    }
}

/// `text.parse::<DocumentMut>()`. The result is a function of the text alone; a
/// parsed document's root is a table (the parser builds the root as one), and the only
/// implicit tables the parser makes are the tables above a header or a dotted key it
/// read, so each has that header's table or that key's value beneath it.
#[verifier::external_body]
pub(crate) fn parse_document(text: &str) -> (r: Result<DocumentMut, TomlError>)
    ensures
        r is Ok <==> parsed_toml(text@) is Some,
        r matches Ok(d) ==> doc_entries(d) == parsed_toml(text@)->0,
        r is Ok ==> is_table_item(parsed_toml(text@)->0),
        r is Ok ==> shows_all(parsed_toml(text@)->0),
{
    text.parse::<DocumentMut>()
}

/// `doc.to_string()` (`Display for DocumentMut`). It reads the root through
/// `DocumentMut::as_table`, which panics unless the root is a table. The text parses
/// back to what the document holds: every table with its header (an implicit table
/// without values prints none, but the headers beneath it bring it back, and with
/// `shows_all` there is always one), every value in its place. What is not stated: the
/// marks of the tables that come back (an implicit table that holds values is printed
/// with its header and reads back explicit) and the layout of the text (comments,
/// whitespace and order, which the entries do not describe). The document's formatting
/// here is what the parser read or `toml_edit`'s default for new items, the only
/// formatting that the trusted items of this file create.
#[verifier::external_body]
pub(crate) fn render_document(d: &DocumentMut) -> (r: String)
    requires
        is_table_item(doc_entries(*d)),
        shows_all(doc_entries(*d)),
    ensures
        parsed_toml(r@) is Some,
        unmarked(parsed_toml(r@)->0) == unmarked(doc_entries(*d)),
{
    d.to_string()
}

/// `DocumentMut::as_item`: the root item.
#[verifier::external_body]
pub(crate) fn doc_item(d: &DocumentMut) -> (r: &Item)
    ensures
        item_entries(*r) == doc_entries(*d),
{
    d.as_item()
}

/// `DocumentMut::as_item_mut`: the root item, for editing.
#[verifier::external_body]
pub(crate) fn doc_item_mut(d: &mut DocumentMut) -> (r: &mut Item)
    ensures
        item_entries(*r) == doc_entries(*old(d)),
        doc_entries(*final(d)) == item_entries(*final(r)),
{
    d.as_item_mut()
}

/// `Table::get`: the item under `key`, if the table holds one there.
#[verifier::external_body]
pub(crate) fn table_get<'a>(t: &'a Table, key: &str) -> (r: Option<&'a Item>)
    ensures
        r is Some <==> under(table_entries(*t), key@).dom().contains(seq![]),
        r matches Some(i) ==> item_entries(*i) == under(table_entries(*t), key@),
{
    t.get(key)
}

/// `Table::get_mut`: the item under `key`, for editing, if the table holds one there.
#[verifier::external_body]
pub(crate) fn table_get_mut<'a>(t: &'a mut Table, key: &str) -> (r: Option<&'a mut Item>)
    ensures
        r is Some <==> under(table_entries(*old(t)), key@).dom().contains(seq![]),
        r is None ==> *final(t) == *old(t),
        r is Some ==> item_entries(*r.unwrap()) == under(table_entries(*old(t)), key@),
        r is Some ==> table_implicit(*final(t)) == table_implicit(*old(t)),
        r is Some ==> table_entries(*final(t)) == graft(
            table_entries(*old(t)),
            key@,
            item_entries(*final(r.unwrap())),
        ),
{
    t.get_mut(key)
}

/// `Table::insert`: puts `item` under `key`, replacing what was there.
#[verifier::external_body]
pub(crate) fn table_insert(t: &mut Table, key: &str, item: Item)
    ensures
        table_entries(*final(t)) == graft(table_entries(*old(t)), key@, item_entries(item)),
        table_implicit(*final(t)) == table_implicit(*old(t)),
{
    t.insert(key, item);
}

/// `table[key] = item` (`IndexMut<&str> for Table`, then assignment): puts `item` under
/// `key`, keeping the key's existing formatting.
#[verifier::external_body]
pub(crate) fn table_set(t: &mut Table, key: &str, item: Item)
    ensures
        table_entries(*final(t)) == graft(table_entries(*old(t)), key@, item_entries(item)),
        table_implicit(*final(t)) == table_implicit(*old(t)),
{
    t[key] = item;
}

/// `Table::set_implicit`: changes only whether the table is marked implicit.
#[verifier::external_body]
pub(crate) fn table_set_implicit(t: &mut Table, implicit: bool)
    ensures
        table_entries(*final(t)) == table_entries(*old(t)),
        table_implicit(*final(t)) == implicit,
{
    t.set_implicit(implicit);
}

/// `Item::as_table`: the table an item holds, if it is one.
#[verifier::external_body]
pub(crate) fn item_as_table(i: &Item) -> (r: Option<&Table>)
    ensures
        r is Some <==> is_table_item(item_entries(*i)),
        r matches Some(t) ==> table_entries(*t) == as_table(item_entries(*i)),
        r matches Some(t) ==> item_entries(*i)[seq![]] == (TomlNode::Table { implicit: table_implicit(*t) }),
{
    i.as_table()
}

/// `Item::as_table_mut`: the table an item holds, for editing, if it is one.
#[verifier::external_body]
pub(crate) fn item_as_table_mut(i: &mut Item) -> (r: Option<&mut Table>)
    ensures
        r is Some <==> is_table_item(item_entries(*old(i))),
        r is None ==> *final(i) == *old(i),
        r is Some ==> table_entries(*r.unwrap()) == as_table(item_entries(*old(i))),
        r is Some ==> item_entries(*old(i))[seq![]] == (TomlNode::Table {
            implicit: table_implicit(*r.unwrap()),
        }),
        r is Some ==> item_entries(*final(i)) == as_item(
            table_entries(*final(r.unwrap())),
            table_implicit(*final(r.unwrap())),
        ),
{
    i.as_table_mut()
}

/// `Item::as_str`: the string an item holds, if it is a string value.
#[verifier::external_body]
pub(crate) fn item_as_str(i: &Item) -> (r: Option<&str>)
    ensures
        r is Some <==> (item_entries(*i).dom().contains(seq![]) && item_entries(*i)[seq![]] is Str),
        r matches Some(s) ==> item_entries(*i)[seq![]] == TomlNode::Str(s@),
{
    i.as_str()
}

/// `Item::as_integer`: the integer an item holds, if it is an integer value.
#[verifier::external_body]
pub(crate) fn item_as_integer(i: &Item) -> (r: Option<i64>)
    ensures
        r is Some <==> (item_entries(*i).dom().contains(seq![]) && item_entries(*i)[seq![]] is Int),
        r matches Some(n) ==> item_entries(*i)[seq![]] == TomlNode::Int(n),
{
    i.as_integer()
}

/// `Item::as_bool`: the boolean an item holds, if it is a boolean value.
#[verifier::external_body]
pub(crate) fn item_as_bool(i: &Item) -> (r: Option<bool>)
    ensures
        r is Some <==> (item_entries(*i).dom().contains(seq![]) && item_entries(*i)[seq![]] is Bool),
        r matches Some(b) ==> item_entries(*i)[seq![]] == TomlNode::Bool(b),
{
    i.as_bool()
}

/// `Item::as_array`: the array an item holds, if it is an array value.
#[verifier::external_body]
pub(crate) fn item_as_array(i: &Item) -> (r: Option<&Array>)
    ensures
        r is Some <==> (item_entries(*i).dom().contains(seq![]) && item_entries(*i)[seq![]] is Array),
        r matches Some(a) ==> item_entries(*i)[seq![]] == TomlNode::Array(array_elems(*a)),
{
    i.as_array()
}

/// `Array::len`: the number of slots.
#[verifier::external_body]
pub(crate) fn array_len(a: &Array) -> (r: usize)
    ensures
        r == array_elems(*a).len(),
{
    a.len()
}

/// `Array::get`: the value in slot `idx`, if the slot holds one.
#[verifier::external_body]
pub(crate) fn array_get(a: &Array, idx: usize) -> (r: Option<&Value>)
    ensures
        r is Some <==> (idx < array_elems(*a).len() && !(array_elems(*a)[idx as int] is Hole)),
        r matches Some(v) ==> elem_of(value_node(*v)) == array_elems(*a)[idx as int],
{
    a.get(idx)
}

/// `Value::as_str`: the string a value holds, if it is one.
#[verifier::external_body]
pub(crate) fn value_as_str(v: &Value) -> (r: Option<&str>)
    ensures
        r is Some <==> value_node(*v) is Str,
        r matches Some(s) ==> value_node(*v) == TomlNode::Str(s@),
{
    v.as_str()
}

/// `Array::new`: an empty array.
#[verifier::external_body]
pub(crate) fn array_new() -> (r: Array)
    ensures
        array_elems(r) == Seq::<ArrayElem>::empty(),
{
    Array::new()
}

/// `Array::push` with a string: appends a string value.
#[verifier::external_body]
pub(crate) fn array_push_str(a: &mut Array, s: &str)
    ensures
        array_elems(*final(a)) == array_elems(*old(a)).push(ArrayElem::Str(s@)),
{
    a.push(s);
}

/// `toml_edit::table()`: an item holding a new, empty table, not implicit
/// (`Table::new` is the derived default).
#[verifier::external_body]
pub(crate) fn new_table_item() -> (r: Item)
    ensures
        item_entries(r) == leaf(TomlNode::Table { implicit: false }),
{
    toml_edit::table()
}

/// `toml_edit::value` on a string: an item holding that string value.
#[verifier::external_body]
pub(crate) fn str_item(s: String) -> (r: Item)
    ensures
        item_entries(r) == leaf(TomlNode::Str(s@)),
{
    toml_edit::value(s)
}

/// `toml_edit::value` on an integer: an item holding that integer value.
#[verifier::external_body]
pub(crate) fn int_item(n: i64) -> (r: Item)
    ensures
        item_entries(r) == leaf(TomlNode::Int(n)),
{
    toml_edit::value(n)
}

/// `toml_edit::value` on a boolean: an item holding that boolean value.
#[verifier::external_body]
pub(crate) fn bool_item(b: bool) -> (r: Item)
    ensures
        item_entries(r) == leaf(TomlNode::Bool(b)),
{
    toml_edit::value(b)
}

/// `toml_edit::value` on an array: an item holding that array value.
#[verifier::external_body]
pub(crate) fn array_item(a: Array) -> (r: Item)
    ensures
        item_entries(r) == leaf(TomlNode::Array(array_elems(a))),
{
    toml_edit::value(a)
}

} // verus!
