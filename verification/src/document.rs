//! A structured document as TOML describes it: a tree of tables, lists and
//! scalars. Reading and writing the text is the `toml` crate's work; what a
//! document means is decided here, on the tree.

use vstd::prelude::*;

verus! {

/// One value of a document.
#[derive(Debug, PartialEq, Eq)]
pub enum Node {
    Text(String),
    Integer(i64),
    Boolean(bool),
    List(Vec<Node>),
    /// The entries of a table in the order of the document; no key occurs
    /// twice in a table that was read from text.
    Table(Vec<(String, Node)>),
    /// A float or a date, which nothing here reads.
    Other,
}

/// The mathematical value of a `Node`.
pub enum NodeView {
    Text(Seq<char>),
    Integer(int),
    Boolean(bool),
    List(Seq<NodeView>),
    Table(Seq<(Seq<char>, NodeView)>),
    Other,
}

/// The values of the nodes of `items`.
pub open spec fn items_view(items: Seq<Node>) -> Seq<NodeView> {
    Seq::new(items.len(), |i: int| items[i]@)
}

/// The keys and values of `entries`.
pub open spec fn entries_view(entries: Seq<(String, Node)>) -> Seq<(Seq<char>, NodeView)> {
    Seq::new(entries.len(), |i: int| (entries[i].0@, entries[i].1@))
}

/// The place of the first entry of `entries` at or after `from` whose key is
/// `key`, or the length of `entries` when there is none.
pub open spec fn first_key(entries: Seq<(Seq<char>, NodeView)>, key: Seq<char>, from: int) -> int
    decreases entries.len() - from,
{
    if from >= entries.len() {
        entries.len() as int
    } else if entries[from].0 == key {
        from
    } else {
        first_key(entries, key, from + 1)
    }
}

/// The value of the first entry of `entries` whose key is `key`.
pub open spec fn table_get(entries: Seq<(Seq<char>, NodeView)>, key: Seq<char>) -> Option<NodeView> {
    let at = first_key(entries, key, 0);
    if at < entries.len() {
        Some(entries[at].1)
    } else {
        None
    }
}

/// The first entry with the key `key` at or after `from` is at `at` when no
/// such entry stands between the two and one stands at `at`, or the entries
/// end there.
pub proof fn lemma_first_key(
    entries: Seq<(Seq<char>, NodeView)>,
    key: Seq<char>,
    from: int,
    at: int,
)
    requires
        0 <= from <= at <= entries.len(),
        forall|j: int| from <= j < at ==> entries[j].0 != key,
        at < entries.len() ==> entries[at].0 == key,
    ensures
        first_key(entries, key, from) == at,
    decreases at - from,
{
    if from < at {
        lemma_first_key(entries, key, from + 1, at);
    }
}

/// No key occurs twice among `entries`.
pub open spec fn distinct_keys(entries: Seq<(Seq<char>, NodeView)>) -> bool {
    forall|i: int, j: int|
        0 <= i < entries.len() && 0 <= j < entries.len() && i != j ==> (#[trigger] entries[i]).0 != (
        #[trigger] entries[j]).0
}

/// Whether the tree can be handed to the `toml` crate as it is: it holds
/// no float and no date, and no table of it holds a key twice.
pub open spec fn is_renderable(n: NodeView) -> bool
    decreases n,
{
    match n {
        NodeView::List(items) => forall|i: int|
            0 <= i < items.len() ==> is_renderable(#[trigger] items[i]),
        NodeView::Table(entries) => distinct_keys(entries) && forall|i: int|
            0 <= i < entries.len() ==> is_renderable((#[trigger] entries[i]).1),
        NodeView::Other => false,
        _ => true,
    }
}

impl Node {
    /// The mathematical value.
    pub open spec fn view(&self) -> NodeView
        decreases self,
    {
        match self {
            Node::Text(s) => NodeView::Text(s@),
            Node::Integer(i) => NodeView::Integer(*i as int),
            Node::Boolean(b) => NodeView::Boolean(*b),
            Node::List(items) => NodeView::List(
                Seq::new(
                    items@.len(),
                    |i: int|
                        if 0 <= i < items@.len() {
                            items@[i].view()
                        } else {
                            NodeView::Other
                        },
                ),
            ),
            Node::Table(entries) => NodeView::Table(
                Seq::new(
                    entries@.len(),
                    |i: int|
                        if 0 <= i < entries@.len() {
                            (entries@[i].0@, entries@[i].1.view())
                        } else {
                            (Seq::empty(), NodeView::Other)
                        },
                ),
            ),
            Node::Other => NodeView::Other,
        }
    }

    /// The node that holds the text `s`.
    pub fn text(s: String) -> (n: Node)
        ensures
            n@ == NodeView::Text(s@),
    {
        Node::Text(s)
    }

    /// The node that holds the list `items`.
    pub fn list(items: Vec<Node>) -> (n: Node)
        ensures
            n@ == NodeView::List(items_view(items@)),
    {
        let n = Node::List(items);
        proof {
            assert(n@->List_0 =~= items_view(items@));
        }
        n
    }

    /// The node that holds the table `entries`.
    pub fn table(entries: Vec<(String, Node)>) -> (n: Node)
        ensures
            n@ == NodeView::Table(entries_view(entries@)),
    {
        let n = Node::Table(entries);
        proof {
            assert(n@->Table_0 =~= entries_view(entries@));
        }
        n
    }

    /// The text of a text node.
    pub fn as_text(&self) -> (r: Option<&String>)
        ensures
            match r {
                Some(s) => self@ == NodeView::Text(s@),
                None => !(self@ is Text),
            },
    {
        match self {
            Node::Text(s) => Some(s),
            _ => None,
        }
    }

    /// The number of an integer node.
    pub fn as_integer(&self) -> (r: Option<i64>)
        ensures
            match r {
                Some(i) => self@ == NodeView::Integer(i as int),
                None => !(self@ is Integer),
            },
    {
        match self {
            Node::Integer(i) => Some(*i),
            _ => None,
        }
    }

    /// The items of a list node.
    pub fn as_list(&self) -> (r: Option<&Vec<Node>>)
        ensures
            match r {
                Some(items) => self@ == NodeView::List(items_view(items@)),
                None => !(self@ is List),
            },
    {
        match self {
            Node::List(items) => {
                proof {
                    assert(self@->List_0 =~= items_view(items@));
                }
                Some(items)
            },
            _ => None,
        }
    }

    /// The entries of a table node.
    pub fn as_table(&self) -> (r: Option<&Vec<(String, Node)>>)
        ensures
            match r {
                Some(entries) => self@ == NodeView::Table(entries_view(entries@)),
                None => !(self@ is Table),
            },
    {
        match self {
            Node::Table(entries) => {
                proof {
                    assert(self@->Table_0 =~= entries_view(entries@));
                }
                Some(entries)
            },
            _ => None,
        }
    }
}

/// The value of the first entry of `entries` whose key is `key`.
pub fn lookup<'a>(entries: &'a Vec<(String, Node)>, key: &str) -> (r: Option<&'a Node>)
    ensures
        match r {
            Some(node) => table_get(entries_view(entries@), key@) == Some(node@),
            None => table_get(entries_view(entries@), key@) is None,
        },
{
    let wanted = String::from_str(key);
    let mut i: usize = 0;
    while i < entries.len()
        invariant
            i <= entries.len(),
            wanted@ == key@,
            forall|j: int| 0 <= j < i ==> entries_view(entries@)[j].0 != key@,
        decreases entries.len() - i,
    {
        if entries[i].0 == wanted {
            proof {
                lemma_first_key(entries_view(entries@), key@, 0, i as int);
            }
            return Some(&entries[i].1);
        }
        i += 1;
    }
    proof {
        lemma_first_key(entries_view(entries@), key@, 0, entries.len() as int);
    }
    None
}

/// What a value of the `toml` crate holds, as a tree. A float and a date
/// stand in it as `Other`.
pub uninterp spec fn value_view(value: toml::Value) -> NodeView;

/// The document that the `toml` crate reads from `text`, or `None` where it
/// finds no TOML document in it.
pub uninterp spec fn toml_document(text: Seq<char>) -> Option<NodeView>;

/// The text that the `toml` crate writes for the document `document` in its
/// pretty form, or `None` where it refuses to write it.
pub uninterp spec fn toml_text(document: NodeView) -> Option<Seq<char>>;

/// `toml::Value`, a value that the `toml` crate has read or is to write; nothing is
/// known of it but what `value_view` names.
#[verifier::external_type_specification]
#[verifier::external_body]
pub struct ExTomlValue(toml::Value);

/// `toml::de::Error`, what the `toml` crate reports of a text it cannot read.
#[verifier::external_type_specification]
#[verifier::external_body]
pub struct ExTomlReadError(toml::de::Error);

/// `toml::ser::Error`, what the `toml` crate reports of a value it cannot write.
#[verifier::external_type_specification]
#[verifier::external_body]
pub struct ExTomlWriteError(toml::ser::Error);

/// `toml::from_str` at the type `toml::Value`: the value read holds the
/// document that `text` writes, and an error comes back exactly where
/// `text` writes none.
#[verifier::external_body]
fn read_value(text: &str) -> (r: Result<toml::Value, toml::de::Error>)
    ensures
        match r {
            Ok(value) => toml_document(text@) == Some(value_view(value)),
            Err(_) => toml_document(text@) is None,
        },
{
    toml::from_str::<toml::Value>(text)
}

/// `toml::to_string_pretty` on a `toml::Value` without floats and dates:
/// the text is the one that belongs to the document held, and an error
/// comes back exactly where there is none.
#[verifier::external_body]
fn write_value(value: &toml::Value) -> (r: Result<String, toml::ser::Error>)
    requires
        is_renderable(value_view(*value)),
    ensures
        match r {
            Ok(text) => toml_text(value_view(*value)) == Some(text@),
            Err(_) => toml_text(value_view(*value)) is None,
        },
{
    toml::to_string_pretty(value)
}

/// Takes a `toml::Value` apart, variant by variant, into a `Node` that
/// holds the same tree.
#[verifier::external_body]
fn node_of_value(value: toml::Value) -> (node: Node)
    ensures
        node@ == value_view(value),
{
    match value {
        toml::Value::String(s) => Node::Text(s),
        toml::Value::Integer(i) => Node::Integer(i),
        toml::Value::Float(_) => Node::Other,
        toml::Value::Boolean(b) => Node::Boolean(b),
        toml::Value::Datetime(_) => Node::Other,
        toml::Value::Array(a) => Node::List(a.into_iter().map(node_of_value).collect()),
        toml::Value::Table(t) => Node::Table(
            t.into_iter().map(|(k, v)| (k, node_of_value(v))).collect(),
        ),
    }
}

/// Puts a `Node` together, variant by variant, as the `toml::Value` that
/// holds the same tree. A tree with a float, a date or a table that holds
/// a key twice has no such value and is left out.
#[verifier::external_body]
fn value_of_node(node: &Node) -> (value: toml::Value)
    requires
        is_renderable(node@),
    ensures
        value_view(value) == node@,
{
    match node {
        Node::Text(s) => toml::Value::String(s.clone()),
        Node::Integer(i) => toml::Value::Integer(*i),
        Node::Boolean(b) => toml::Value::Boolean(*b),
        Node::List(a) => toml::Value::Array(a.iter().map(value_of_node).collect()),
        Node::Table(t) => toml::Value::Table(
            t.iter().map(|(k, v)| (k.clone(), value_of_node(v))).collect(),
        ),
        Node::Other => toml::Value::Array(Vec::new()),
    }
}

/// Reads a TOML document from `text`; `None` where `text` is none.
pub fn parse_document(text: &str) -> (r: Option<Node>)
    ensures
        match r {
            Some(node) => toml_document(text@) == Some(node@),
            None => toml_document(text@) is None,
        },
{
    match read_value(text) {
        Ok(value) => Some(node_of_value(value)),
        Err(_) => None,
    }
}

/// Writes `document` as TOML text in the pretty form; `None` where the
/// document holds a float, a date or a key twice in one table, or cannot
/// be written as TOML.
pub fn render_document(document: &Node) -> (r: Option<String>)
    ensures
        match r {
            Some(text) => is_renderable(document@) && toml_text(document@) == Some(text@),
            None => !is_renderable(document@) || toml_text(document@) is None,
        },
{
    if !check_renderable(document) {
        return None;
    }
    let value = value_of_node(document);
    match write_value(&value) {
        Ok(text) => Some(text),
        Err(_) => None,
    }
}

/// Whether no key occurs twice among `entries`.
pub fn check_distinct_keys(entries: &Vec<(String, Node)>) -> (ok: bool)
    ensures
        ok == distinct_keys(entries_view(entries@)),
{
    let ghost ev = entries_view(entries@);
    let mut i: usize = 0;
    while i < entries.len()
        invariant
            i <= entries.len(),
            ev == entries_view(entries@),
            forall|a: int, b: int| 0 <= a < i && 0 <= b < a ==> ev[a].0 != ev[b].0,
        decreases entries.len() - i,
    {
        let mut j: usize = 0;
        while j < i
            invariant
                j <= i < entries.len(),
                ev == entries_view(entries@),
                forall|b: int| 0 <= b < j ==> ev[i as int].0 != ev[b].0,
            decreases i - j,
        {
            if entries[i].0 == entries[j].0 {
                assert(ev[i as int].0 == ev[j as int].0);
                return false;
            }
            j += 1;
        }
        i += 1;
    }
    proof {
        assert forall|a: int, b: int|
            0 <= a < ev.len() && 0 <= b < ev.len() && a != b implies (#[trigger] ev[a]).0 != (
        #[trigger] ev[b]).0 by {
            if b < a {
                assert(ev[a].0 != ev[b].0);
            } else {
                assert(ev[b].0 != ev[a].0);
            }
        }
    }
    true
}

/// Whether the tree holds no float, no date and no key twice in one
/// table.
pub fn check_renderable(node: &Node) -> (ok: bool)
    ensures
        ok == is_renderable(node@),
    decreases node,
{
    match node {
        Node::List(items) => {
            let mut i: usize = 0;
            while i < items.len()
                invariant
                    i <= items.len(),
                    node == Node::List(*items),
                    forall|j: int| 0 <= j < i ==> is_renderable(#[trigger] items_view(items@)[j]),
                decreases items.len() - i,
            {
                if !check_renderable(&items[i]) {
                    proof {
                        assert(node@->List_0 =~= items_view(items@));
                        assert(!is_renderable(items_view(items@)[i as int]));
                    }
                    return false;
                }
                i += 1;
            }
            proof {
                assert(node@->List_0 =~= items_view(items@));
            }
            true
        },
        Node::Table(entries) => {
            proof {
                assert(node@->Table_0 =~= entries_view(entries@));
            }
            if !check_distinct_keys(entries) {
                return false;
            }
            let mut i: usize = 0;
            while i < entries.len()
                invariant
                    i <= entries.len(),
                    node == Node::Table(*entries),
                    forall|j: int|
                        0 <= j < i ==> is_renderable((#[trigger] entries_view(entries@)[j]).1),
                decreases entries.len() - i,
            {
                if !check_renderable(&entries[i].1) {
                    proof {
                        assert(node@->Table_0 =~= entries_view(entries@));
                        assert(!is_renderable(entries_view(entries@)[i as int].1));
                    }
                    return false;
                }
                i += 1;
            }
            proof {
                assert(node@->Table_0 =~= entries_view(entries@));
            }
            true
        },
        Node::Other => false,
        _ => true,
    }
}

} // verus!
