//! The labelled property graph that the tools read.
//!
//! Labels and property keys are symbols, stored once and referred to by
//! index. A floating-point property is carried by its bits together with the
//! two renderings that presentation uses.

use vstd::prelude::*;
use vstd::string::*;

use crate::digits;
use crate::text;

verus! {

pub type NodeId = u64;

pub type EdgeId = u64;

/// A floating-point property value.
#[derive(Debug)]
pub struct FloatValue {
    /// The IEEE 754 bits of the value.
    pub bits: u64,
    /// The shortest decimal form.
    pub shortest: String,
    /// The form with five digits after the point, where the value is shown.
    pub fixed: String,
}

/// A typed property value.
#[derive(Debug)]
pub enum Value {
    Null,
    Bool(bool),
    Int(i64),
    Float(FloatValue),
    String(String),
    Bytes(Vec<u8>),
    Node(NodeId),
    Edge(EdgeId),
}

/// The contents of a property value.
pub enum ValueView {
    Null,
    Bool(bool),
    Int(i64),
    Float(u64, Seq<char>, Seq<char>),
    Text(Seq<char>),
    Bytes(Seq<u8>),
    Node(NodeId),
    Edge(EdgeId),
}

impl View for Value {
    type V = ValueView;

    open spec fn view(&self) -> ValueView {
        match self {
            Value::Null => ValueView::Null,
            Value::Bool(b) => ValueView::Bool(*b),
            Value::Int(n) => ValueView::Int(*n),
            Value::Float(f) => ValueView::Float(f.bits, f.shortest@, f.fixed@),
            Value::String(s) => ValueView::Text(s@),
            Value::Bytes(b) => ValueView::Bytes(b@),
            Value::Node(id) => ValueView::Node(*id),
            Value::Edge(id) => ValueView::Edge(*id),
        }
    }
}

/// Copies bytes.
pub fn copy_bytes(bytes: &Vec<u8>) -> (r: Vec<u8>)
    ensures
        r@ == bytes@,
{
    let mut out: Vec<u8> = Vec::new();
    let mut i: usize = 0;
    while i < bytes.len()
        invariant
            i <= bytes.len(),
            out@ == bytes@.take(i as int),
        decreases bytes.len() - i,
    {
        out.push(bytes[i]);
        assert(bytes@.take(i + 1) =~= bytes@.take(i as int).push(bytes@[i as int]));
        i = i + 1;
    }
    assert(bytes@.take(bytes@.len() as int) =~= bytes@);
    out
}

impl Value {
    /// A copy with the same contents.
    pub fn copied(&self) -> (r: Value)
        ensures
            r@ == self@,
    {
        match self {
            Value::Null => Value::Null,
            Value::Bool(b) => Value::Bool(*b),
            Value::Int(n) => Value::Int(*n),
            Value::Float(f) => Value::Float(
                FloatValue {
                    bits: f.bits,
                    shortest: f.shortest.clone(),
                    fixed: f.fixed.clone(),
                },
            ),
            Value::String(s) => Value::String(s.clone()),
            Value::Bytes(b) => Value::Bytes(copy_bytes(b)),
            Value::Node(id) => Value::Node(*id),
            Value::Edge(id) => Value::Edge(*id),
        }
    }
}

/// The text of a truth value.
pub open spec fn bool_text(b: bool) -> Seq<char> {
    if b {
        "true"@
    } else {
        "false"@
    }
}

pub fn bool_string(b: bool) -> (r: String)
    ensures
        r@ == bool_text(b),
{
    if b {
        "true".to_owned()
    } else {
        "false".to_owned()
    }
}

/// The text by which a value is found: none for nulls and bytes.
pub open spec fn searchable(value: ValueView) -> Option<Seq<char>> {
    match value {
        ValueView::Text(s) => Some(s),
        ValueView::Bool(b) => Some(bool_text(b)),
        ValueView::Int(n) => Some(digits::signed_decimal(n as int)),
        ValueView::Float(_, shortest, _) => Some(shortest),
        ValueView::Node(id) => Some(digits::decimal(id as nat)),
        ValueView::Edge(id) => Some(digits::decimal(id as nat)),
        ValueView::Null => None,
        ValueView::Bytes(_) => None,
    }
}

/// The text by which a value is found.
pub fn searchable_value(value: &Value) -> (r: Option<String>)
    ensures
        text::opt_view(r) == searchable(value@),
{
    match value {
        Value::String(s) => Some(s.clone()),
        Value::Bool(b) => Some(bool_string(*b)),
        Value::Int(n) => Some(digits::signed_text(*n)),
        Value::Float(f) => Some(f.shortest.clone()),
        Value::Node(id) => Some(digits::decimal_text(*id)),
        Value::Edge(id) => Some(digits::decimal_text(*id)),
        Value::Null => None,
        Value::Bytes(_) => None,
    }
}

/// How the inspector shows a value.
pub open spec fn formatted(value: ValueView) -> Seq<char> {
    match value {
        ValueView::Null => "null"@,
        ValueView::Bool(b) => bool_text(b),
        ValueView::Int(n) => digits::signed_decimal(n as int),
        ValueView::Float(_, _, fixed) => fixed,
        ValueView::Text(s) => s,
        ValueView::Bytes(b) => "<"@ + digits::decimal(b.len()) + " bytes>"@,
        ValueView::Node(id) => "node:"@ + digits::decimal(id as nat),
        ValueView::Edge(id) => "edge:"@ + digits::decimal(id as nat),
    }
}

/// How the inspector shows a value.
pub fn format_value(value: &Value) -> (r: String)
    ensures
        r@ == formatted(value@),
{
    match value {
        Value::Null => "null".to_owned(),
        Value::Bool(b) => bool_string(*b),
        Value::Int(n) => digits::signed_text(*n),
        Value::Float(f) => f.fixed.clone(),
        Value::String(s) => s.clone(),
        Value::Bytes(b) => text::concat3("<", digits::usize_text(b.len()).as_str(), " bytes>"),
        Value::Node(id) => text::concat2("node:", digits::decimal_text(*id).as_str()),
        Value::Edge(id) => text::concat2("edge:", digits::decimal_text(*id).as_str()),
    }
}

/// A stored property: its key's symbol and its value.
#[derive(Debug)]
pub struct Property {
    pub key: u32,
    pub value: Value,
}

/// A stored node.
#[derive(Debug)]
pub struct NodeRecord {
    pub id: NodeId,
    pub label: u32,
    pub vector_count: u32,
    pub properties: Vec<Property>,
}

/// A stored relationship, directed from `source` to `target`.
#[derive(Debug)]
pub struct EdgeRecord {
    pub id: EdgeId,
    pub source: NodeId,
    pub target: NodeId,
    pub label: u32,
    pub vector_count: u32,
    pub properties: Vec<Property>,
}

/// The size of a database.
#[derive(Clone, Copy, Debug, PartialEq, Eq, Structural)]
pub struct GraphStats {
    pub nodes: usize,
    pub edges: usize,
    pub labels: usize,
    pub indexed_vectors: usize,
    pub transactions: u64,
}

/// A graph element.
#[derive(Clone, Copy, Debug, PartialEq, Eq, Structural)]
pub enum ElementRef {
    Node(NodeId),
    Edge(EdgeId),
}

/// Which way a traversal follows relationships.
#[derive(Clone, Copy, Debug, PartialEq, Eq, Structural)]
pub enum Direction {
    Outgoing,
    Incoming,
    Both,
}

/// What a database holds.
#[derive(Debug)]
pub struct GraphData {
    pub symbols: Vec<String>,
    pub nodes: Vec<NodeRecord>,
    pub edges: Vec<EdgeRecord>,
    pub stats: GraphStats,
    /// The database file's name, where it has one that is valid text.
    pub file_name: Option<String>,
}

/// The first position from `from` on at which `id` stands.
pub open spec fn node_slot(nodes: Seq<NodeRecord>, id: NodeId, from: int) -> Option<int>
    decreases nodes.len() - from,
{
    if from < 0 || from >= nodes.len() {
        None
    } else if nodes[from].id == id {
        Some(from)
    } else {
        node_slot(nodes, id, from + 1)
    }
}

/// The first position from `from` on at which `id` stands.
pub open spec fn edge_slot(edges: Seq<EdgeRecord>, id: EdgeId, from: int) -> Option<int>
    decreases edges.len() - from,
{
    if from < 0 || from >= edges.len() {
        None
    } else if edges[from].id == id {
        Some(from)
    } else {
        edge_slot(edges, id, from + 1)
    }
}

/// The first position from `from` on at which the name stands.
pub open spec fn symbol_slot(symbols: Seq<String>, name: Seq<char>, from: int) -> Option<int>
    decreases symbols.len() - from,
{
    if from < 0 || from >= symbols.len() {
        None
    } else if symbols[from]@ == name {
        Some(from)
    } else {
        symbol_slot(symbols, name, from + 1)
    }
}

/// The first position from `from` on that holds a property with the key.
pub open spec fn property_slot(properties: Seq<Property>, key: u32, from: int) -> Option<int>
    decreases properties.len() - from,
{
    if from < 0 || from >= properties.len() {
        None
    } else if properties[from].key == key {
        Some(from)
    } else {
        property_slot(properties, key, from + 1)
    }
}

impl GraphData {
    /// The position of a node's record.
    pub open spec fn node_at(self, id: NodeId) -> Option<int> {
        node_slot(self.nodes@, id, 0)
    }

    /// The position of a relationship's record.
    pub open spec fn edge_at(self, id: EdgeId) -> Option<int> {
        edge_slot(self.edges@, id, 0)
    }

    /// The name of a symbol.
    pub open spec fn symbol_name(self, symbol: u32) -> Option<Seq<char>> {
        if symbol < self.symbols@.len() {
            Some(self.symbols@[symbol as int]@)
        } else {
            None
        }
    }

    /// The name of a symbol, or `default`.
    pub open spec fn symbol_or(self, symbol: u32, default: Seq<char>) -> Seq<char> {
        match self.symbol_name(symbol) {
            Some(name) => name,
            None => default,
        }
    }

    /// The symbol of a name.
    pub open spec fn symbol_of(self, name: Seq<char>) -> Option<u32> {
        match symbol_slot(self.symbols@, name, 0) {
            Some(i) => if i <= u32::MAX { Some(i as u32) } else { None },
            None => None,
        }
    }

    /// The position of the property with the given key.
    pub open spec fn property_at(self, properties: Seq<Property>, key: Seq<char>) -> Option<int> {
        match self.symbol_of(key) {
            Some(symbol) => property_slot(properties, symbol, 0),
            None => None,
        }
    }

    /// The searchable text of the property with the given key.
    pub open spec fn property_text(self, properties: Seq<Property>, key: Seq<char>) -> Option<
        Seq<char>,
    > {
        match self.property_at(properties, key) {
            Some(i) => searchable(properties[i].value@),
            None => None,
        }
    }

    /// The searchable text of the first of the keys that has one.
    pub open spec fn first_text(self, properties: Seq<Property>, keys: Seq<Seq<char>>) -> Option<
        Seq<char>,
    >
        decreases keys.len(),
    {
        if keys.len() == 0 {
            None
        } else {
            match self.property_text(properties, keys[0]) {
                Some(found) => Some(found),
                None => self.first_text(properties, keys.drop_first()),
            }
        }
    }

    /// The searchable text of the first of the keys that has one which is not
    /// empty and differs from `title`.
    pub open spec fn first_other_text(
        self,
        properties: Seq<Property>,
        keys: Seq<Seq<char>>,
        title: Seq<char>,
    ) -> Option<Seq<char>>
        decreases keys.len(),
    {
        if keys.len() == 0 {
            None
        } else {
            match self.property_text(properties, keys[0]) {
                Some(found) => if found != title && found.len() > 0 {
                    Some(found)
                } else {
                    self.first_other_text(properties, keys.drop_first(), title)
                },
                None => self.first_other_text(properties, keys.drop_first(), title),
            }
        }
    }

    /// Finds a node's record.
    pub fn node(&self, id: NodeId) -> (r: Option<&NodeRecord>)
        ensures
            match self.node_at(id) {
                Some(i) => 0 <= i < self.nodes@.len() && r == Some(&self.nodes@[i])
                    && self.nodes@[i].id == id,
                None => r is None,
            },
    {
        let mut i: usize = 0;
        while i < self.nodes.len()
            invariant
                i <= self.nodes.len(),
                self.node_at(id) == node_slot(self.nodes@, id, i as int),
            decreases self.nodes.len() - i,
        {
            if self.nodes[i].id == id {
                return Some(&self.nodes[i]);
            }
            i = i + 1;
        }
        None
    }

    /// Finds a relationship's record.
    pub fn edge(&self, id: EdgeId) -> (r: Option<&EdgeRecord>)
        ensures
            match self.edge_at(id) {
                Some(i) => 0 <= i < self.edges@.len() && r == Some(&self.edges@[i])
                    && self.edges@[i].id == id,
                None => r is None,
            },
    {
        let mut i: usize = 0;
        while i < self.edges.len()
            invariant
                i <= self.edges.len(),
                self.edge_at(id) == edge_slot(self.edges@, id, i as int),
            decreases self.edges.len() - i,
        {
            if self.edges[i].id == id {
                return Some(&self.edges[i]);
            }
            i = i + 1;
        }
        None
    }

    /// The name of a symbol, or `default`.
    pub fn symbol(&self, symbol: u32, default: &str) -> (r: String)
        ensures
            r@ == self.symbol_or(symbol, default@),
    {
        let i: usize = symbol as usize;
        if i < self.symbols.len() {
            self.symbols[i].clone()
        } else {
            default.to_owned()
        }
    }

    /// The symbol of a name.
    pub fn label_id(&self, name: &str) -> (r: Option<u32>)
        ensures
            r == self.symbol_of(name@),
    {
        let mut i: usize = 0;
        while i < self.symbols.len()
            invariant
                i <= self.symbols.len(),
                symbol_slot(self.symbols@, name@, 0) == symbol_slot(
                    self.symbols@,
                    name@,
                    i as int,
                ),
            decreases self.symbols.len() - i,
        {
            if text::same_text(self.symbols[i].as_str(), name) {
                if i as u64 <= u32::MAX as u64 {
                    return Some(i as u32);
                }
                return None;
            }
            i = i + 1;
        }
        None
    }

    /// The property with the given key.
    pub fn property<'a>(&self, properties: &'a Vec<Property>, key: &str) -> (r: Option<&'a Value>)
        ensures
            match self.property_at(properties@, key@) {
                Some(i) => 0 <= i < properties@.len() && r == Some(&properties@[i].value),
                None => r is None,
            },
    {
        match self.label_id(key) {
            None => None,
            Some(symbol) => {
                let mut i: usize = 0;
                while i < properties.len()
                    invariant
                        i <= properties.len(),
                        property_slot(properties@, symbol, 0) == property_slot(
                            properties@,
                            symbol,
                            i as int,
                        ),
                        self.symbol_of(key@) == Some(symbol),
                    decreases properties.len() - i,
                {
                    if properties[i].key == symbol {
                        return Some(&properties[i].value);
                    }
                    i = i + 1;
                }
                None
            },
        }
    }

    /// The searchable text of the property with the given key.
    pub fn text_of(&self, properties: &Vec<Property>, key: &str) -> (r: Option<String>)
        ensures
            text::opt_view(r) == self.property_text(properties@, key@),
    {
        match self.property(properties, key) {
            Some(value) => searchable_value(value),
            None => None,
        }
    }
}

/// The views of a list of string slices.
pub open spec fn str_views(texts: Seq<&str>) -> Seq<Seq<char>> {
    texts.map_values(|t: &str| t@)
}

impl GraphData {
    /// The searchable text of the first of the keys that has one.
    pub fn find_first_text(&self, properties: &Vec<Property>, keys: &Vec<&str>) -> (r: Option<
        String,
    >)
        ensures
            text::opt_view(r) == self.first_text(properties@, str_views(keys@)),
    {
        let mut i: usize = 0;
        assert(str_views(keys@).skip(0) =~= str_views(keys@));
        while i < keys.len()
            invariant
                i <= keys.len(),
                self.first_text(properties@, str_views(keys@)) == self.first_text(
                    properties@,
                    str_views(keys@).skip(i as int),
                ),
            decreases keys.len() - i,
        {
            let found = self.text_of(properties, keys[i]);
            proof {
                assert(str_views(keys@).skip(i as int).drop_first() =~= str_views(keys@).skip(
                    i + 1,
                ));
                assert(str_views(keys@).skip(i as int)[0] == keys@[i as int]@);
            }
            if found.is_some() {
                return found;
            }
            i = i + 1;
        }
        None
    }

    /// The searchable text of the first of the keys that has one which is not
    /// empty and differs from `title`.
    pub fn find_first_other_text(
        &self,
        properties: &Vec<Property>,
        keys: &Vec<&str>,
        title: &str,
    ) -> (r: Option<String>)
        ensures
            text::opt_view(r) == self.first_other_text(properties@, str_views(keys@), title@),
    {
        let mut i: usize = 0;
        assert(str_views(keys@).skip(0) =~= str_views(keys@));
        while i < keys.len()
            invariant
                i <= keys.len(),
                self.first_other_text(properties@, str_views(keys@), title@)
                    == self.first_other_text(
                    properties@,
                    str_views(keys@).skip(i as int),
                    title@,
                ),
            decreases keys.len() - i,
        {
            let found = self.text_of(properties, keys[i]);
            proof {
                assert(str_views(keys@).skip(i as int).drop_first() =~= str_views(keys@).skip(
                    i + 1,
                ));
                assert(str_views(keys@).skip(i as int)[0] == keys@[i as int]@);
            }
            match found {
                Some(value) => {
                    if !text::same_text(value.as_str(), title) && !value.as_str().is_empty() {
                        return Some(value);
                    }
                },
                None => {},
            }
            i = i + 1;
        }
        None
    }

    /// How the command line shows a value: element references carry the label
    /// of the element that they name.
    pub open spec fn displayed(self, value: ValueView) -> Seq<char> {
        match value {
            ValueView::Null => "null"@,
            ValueView::Bool(b) => bool_text(b),
            ValueView::Int(n) => digits::signed_decimal(n as int),
            ValueView::Float(_, shortest, _) => shortest,
            ValueView::Text(s) => s,
            ValueView::Bytes(b) => "<"@ + digits::decimal(b.len()) + " bytes>"@,
            ValueView::Node(id) => match self.node_at(id) {
                Some(i) => "node:"@ + digits::decimal(id as nat) + ":"@ + self.symbol_or(
                    self.nodes@[i].label,
                    "?"@,
                ),
                None => "node:"@ + digits::decimal(id as nat),
            },
            ValueView::Edge(id) => match self.edge_at(id) {
                Some(i) => "edge:"@ + digits::decimal(id as nat) + ":"@ + self.symbol_or(
                    self.edges@[i].label,
                    "?"@,
                ),
                None => "edge:"@ + digits::decimal(id as nat),
            },
        }
    }

    /// How the command line shows a value.
    pub fn display_value(&self, value: &Value) -> (r: String)
        ensures
            r@ == self.displayed(value@),
    {
        match value {
            Value::Null => "null".to_owned(),
            Value::Bool(b) => bool_string(*b),
            Value::Int(n) => digits::signed_text(*n),
            Value::Float(f) => f.shortest.clone(),
            Value::String(s) => s.clone(),
            Value::Bytes(b) => text::concat3("<", digits::usize_text(b.len()).as_str(), " bytes>"),
            Value::Node(id) => {
                let digits = digits::decimal_text(*id);
                match self.node(*id) {
                    Some(node) => {
                        let label = self.symbol(node.label, "?");
                        text::concat4("node:", digits.as_str(), ":", label.as_str())
                    },
                    None => text::concat2("node:", digits.as_str()),
                }
            },
            Value::Edge(id) => {
                let digits = digits::decimal_text(*id);
                match self.edge(*id) {
                    Some(edge) => {
                        let label = self.symbol(edge.label, "?");
                        text::concat4("edge:", digits.as_str(), ":", label.as_str())
                    },
                    None => text::concat2("edge:", digits.as_str()),
                }
            },
        }
    }

    /// The first property of the given keys as the command line shows it, or
    /// nothing.
    pub open spec fn concise(self, properties: Seq<Property>, keys: Seq<Seq<char>>) -> Seq<char>
        decreases keys.len(),
    {
        if keys.len() == 0 {
            Seq::empty()
        } else {
            match self.property_at(properties, keys[0]) {
                Some(i) => self.displayed(properties[i].value@),
                None => self.concise(properties, keys.drop_first()),
            }
        }
    }

    /// The keys that name an element on the command line, best first.
    pub open spec fn concise_keys() -> Seq<Seq<char>> {
        seq!["name"@, "title"@, "path"@, "text"@, "kind"@]
    }

    /// One value that names an element on the command line.
    pub fn concise_element(&self, properties: &Vec<Property>) -> (r: String)
        ensures
            r@ == self.concise(properties@, Self::concise_keys()),
    {
        let keys = vec!["name", "title", "path", "text", "kind"];
        let mut i: usize = 0;
        proof {
            assert(str_views(keys@) =~= Self::concise_keys());
            assert(str_views(keys@).skip(0) =~= str_views(keys@));
        }
        while i < keys.len()
            invariant
                i <= keys.len(),
                self.concise(properties@, Self::concise_keys()) == self.concise(
                    properties@,
                    str_views(keys@).skip(i as int),
                ),
            decreases keys.len() - i,
        {
            proof {
                assert(str_views(keys@).skip(i as int).drop_first() =~= str_views(keys@).skip(
                    i + 1,
                ));
                assert(str_views(keys@).skip(i as int)[0] == keys@[i as int]@);
            }
            match self.property(properties, keys[i]) {
                Some(value) => {
                    return self.display_value(value);
                },
                None => {},
            }
            i = i + 1;
        }
        String::new()
    }
}

} // verus!
