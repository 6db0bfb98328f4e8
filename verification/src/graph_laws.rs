//! What looking things up in a graph, and showing its values, keeps.

use vstd::prelude::*;

use crate::digits;
use crate::digits_laws;
use crate::evidence;
use crate::graph;
use crate::graph::{EdgeId, EdgeRecord, GraphData, NodeId, NodeRecord, Property, ValueView};

verus! {

proof fn lemma_node_slot(nodes: Seq<NodeRecord>, id: NodeId, from: int)
    requires
        0 <= from,
    ensures
        match graph::node_slot(nodes, id, from) {
            Some(i) => from <= i < nodes.len() && nodes[i].id == id && forall|j: int|
                from <= j < i ==> (#[trigger] nodes[j]).id != id,
            None => forall|j: int| from <= j < nodes.len() ==> (#[trigger] nodes[j]).id != id,
        },
    decreases nodes.len() - from,
{
    if from < nodes.len() && nodes[from].id != id {
        lemma_node_slot(nodes, id, from + 1);
    }
}

proof fn lemma_edge_slot(edges: Seq<EdgeRecord>, id: EdgeId, from: int)
    requires
        0 <= from,
    ensures
        match graph::edge_slot(edges, id, from) {
            Some(i) => from <= i < edges.len() && edges[i].id == id && forall|j: int|
                from <= j < i ==> (#[trigger] edges[j]).id != id,
            None => forall|j: int| from <= j < edges.len() ==> (#[trigger] edges[j]).id != id,
        },
    decreases edges.len() - from,
{
    if from < edges.len() && edges[from].id != id {
        lemma_edge_slot(edges, id, from + 1);
    }
}

proof fn lemma_symbol_slot(symbols: Seq<String>, name: Seq<char>, from: int)
    requires
        0 <= from,
    ensures
        match graph::symbol_slot(symbols, name, from) {
            Some(i) => from <= i < symbols.len() && symbols[i]@ == name && forall|j: int|
                from <= j < i ==> (#[trigger] symbols[j])@ != name,
            None => forall|j: int| from <= j < symbols.len() ==> (#[trigger] symbols[j])@ != name,
        },
    decreases symbols.len() - from,
{
    if from < symbols.len() && symbols[from]@ != name {
        lemma_symbol_slot(symbols, name, from + 1);
    }
}

proof fn lemma_property_slot(properties: Seq<Property>, key: u32, from: int)
    requires
        0 <= from,
    ensures
        match graph::property_slot(properties, key, from) {
            Some(i) => from <= i < properties.len() && properties[i].key == key && forall|j: int|
                from <= j < i ==> (#[trigger] properties[j]).key != key,
            None => forall|j: int|
                from <= j < properties.len() ==> (#[trigger] properties[j]).key != key,
        },
    decreases properties.len() - from,
{
    if from < properties.len() && properties[from].key != key {
        lemma_property_slot(properties, key, from + 1);
    }
}

/// Looking up a node gives the first record with that id, and fails only
/// where no record has it.
pub proof fn law_node_lookup_is_exact(g: GraphData, id: NodeId)
    ensures
        match g.node_at(id) {
            Some(i) => 0 <= i < g.nodes@.len() && g.nodes@[i].id == id && forall|j: int|
                0 <= j < i ==> (#[trigger] g.nodes@[j]).id != id,
            None => forall|j: int| 0 <= j < g.nodes@.len() ==> (#[trigger] g.nodes@[j]).id != id,
        },
{
    lemma_node_slot(g.nodes@, id, 0);
}

/// Looking up a relationship gives the first record with that id, and fails
/// only where no record has it.
pub proof fn law_edge_lookup_is_exact(g: GraphData, id: EdgeId)
    ensures
        match g.edge_at(id) {
            Some(i) => 0 <= i < g.edges@.len() && g.edges@[i].id == id && forall|j: int|
                0 <= j < i ==> (#[trigger] g.edges@[j]).id != id,
            None => forall|j: int| 0 <= j < g.edges@.len() ==> (#[trigger] g.edges@[j]).id != id,
        },
{
    lemma_edge_slot(g.edges@, id, 0);
}

/// Resolving a name and spelling the symbol give the name back, and a name is
/// refused only where no symbol has it.
pub proof fn law_symbols_spell_their_names(g: GraphData, name: Seq<char>, default: Seq<char>)
    requires
        g.symbols@.len() <= u32::MAX,
    ensures
        match g.symbol_of(name) {
            Some(symbol) => symbol < g.symbols@.len() && g.symbols@[symbol as int]@ == name
                && g.symbol_name(symbol) == Some(name) && g.symbol_or(symbol, default) == name,
            None => forall|j: int| 0 <= j < g.symbols@.len() ==> (#[trigger] g.symbols@[j])@ != name,
        },
{
    lemma_symbol_slot(g.symbols@, name, 0);
}

/// A symbol of the table is spelled as the table spells it, and any other
/// falls back to the default.
pub proof fn law_symbols_are_spelled(g: GraphData, symbol: u32, default: Seq<char>)
    ensures
        symbol < g.symbols@.len() ==> g.symbol_or(symbol, default) == g.symbols@[symbol as int]@,
        symbol >= g.symbols@.len() ==> g.symbol_or(symbol, default) == default,
{
}

/// Whether every symbol is spelled once, as a symbol table does.
pub open spec fn spelled_once(g: GraphData) -> bool {
    &&& g.symbols@.len() <= u32::MAX
    &&& forall|a: int, b: int|
        0 <= a < b < g.symbols@.len() ==> (#[trigger] g.symbols@[a])@ != (#[trigger] g.symbols@[b])@
}

/// Whether the key of a property is spelled so.
pub open spec fn keyed(g: GraphData, property: Property, key: Seq<char>) -> bool {
    property.key < g.symbols@.len() && g.symbols@[property.key as int]@ == key
}

/// A property is found by the text of its key: the first one of that key, and
/// none only where none has it.
pub proof fn law_properties_are_found_by_key(
    g: GraphData,
    properties: Seq<Property>,
    key: Seq<char>,
)
    requires
        spelled_once(g),
    ensures
        match g.property_at(properties, key) {
            Some(i) => 0 <= i < properties.len() && keyed(g, properties[i], key) && forall|j: int|
                0 <= j < i ==> !keyed(g, #[trigger] properties[j], key),
            None => forall|j: int|
                0 <= j < properties.len() ==> !keyed(g, #[trigger] properties[j], key),
        },
{
    lemma_symbol_slot(g.symbols@, key, 0);
    if let Some(symbol) = g.symbol_of(key) {
        lemma_property_slot(properties, symbol, 0);
    }
}

/// The text of a property is the text of the value that its key is stored
/// with.
pub proof fn law_property_text_is_of_the_value(
    g: GraphData,
    properties: Seq<Property>,
    i: int,
    key: Seq<char>,
)
    requires
        spelled_once(g),
        0 <= i < properties.len(),
        keyed(g, properties[i], key),
        forall|j: int| 0 <= j < i ==> !keyed(g, #[trigger] properties[j], key),
    ensures
        properties[i].value@ matches ValueView::Text(s) ==> g.property_text(properties, key)
            == Some(s),
        properties[i].value@ is Null || properties[i].value@ is Bytes ==> g.property_text(
            properties,
            key,
        ) is None,
        properties[i].value@ matches ValueView::Int(n) ==> g.property_text(properties, key)
            == Some(digits::signed_decimal(n as int)),
{
    law_properties_are_found_by_key(g, properties, key);
}

proof fn lemma_first_text(g: GraphData, properties: Seq<Property>, keys: Seq<Seq<char>>)
    ensures
        match g.first_text(properties, keys) {
            Some(found) => exists|k: int|
                0 <= k < keys.len() && g.property_text(properties, #[trigger] keys[k]) == Some(found)
                    && forall|j: int|
                    0 <= j < k ==> g.property_text(properties, #[trigger] keys[j]) is None,
            None => forall|j: int|
                0 <= j < keys.len() ==> g.property_text(properties, #[trigger] keys[j]) is None,
        },
    decreases keys.len(),
{
    if keys.len() > 0 {
        let rest = keys.drop_first();
        lemma_first_text(g, properties, rest);
        match g.property_text(properties, keys[0]) {
            Some(_) => {},
            None => match g.first_text(properties, keys) {
                Some(found) => {
                    let k = choose|k: int|
                        0 <= k < rest.len() && g.property_text(properties, #[trigger] rest[k])
                            == Some(found) && forall|j: int|
                            0 <= j < k ==> g.property_text(properties, #[trigger] rest[j]) is None;
                    assert(keys[k + 1] == rest[k]);
                    assert forall|j: int| 0 <= j < k + 1 implies g.property_text(
                        properties,
                        #[trigger] keys[j],
                    ) is None by {
                        if j > 0 {
                            assert(keys[j] == rest[j - 1]);
                        }
                    }
                },
                None => {
                    assert forall|j: int| 0 <= j < keys.len() implies g.property_text(
                        properties,
                        #[trigger] keys[j],
                    ) is None by {
                        if j > 0 {
                            assert(keys[j] == rest[j - 1]);
                        }
                    }
                },
            },
        }
    }
}

/// An element is titled by the first of its title, name, headline, path, tag
/// name and login that has a text, and by nothing else.
pub proof fn law_titles_prefer_the_title(g: GraphData, properties: Seq<Property>)
    ensures
        ({
            let title = |key: Seq<char>| g.property_text(properties, key);
            g.first_text(properties, evidence::preferred_keys()) == if title("title"@) is Some {
                title("title"@)
            } else if title("name"@) is Some {
                title("name"@)
            } else if title("headline"@) is Some {
                title("headline"@)
            } else if title("path"@) is Some {
                title("path"@)
            } else if title("tag_name"@) is Some {
                title("tag_name"@)
            } else {
                title("login"@)
            }
        }),
{
    let keys = evidence::preferred_keys();
    assert(keys.len() == 6 && keys[0] == "title"@ && keys[1] == "name"@ && keys[2] == "headline"@
        && keys[3] == "path"@ && keys[4] == "tag_name"@ && keys[5] == "login"@);
    lemma_first_text(g, properties, keys);
}

/// The text of a property, where it adds something to the title.
pub open spec fn adding(
    g: GraphData,
    properties: Seq<Property>,
    key: Seq<char>,
    title: Seq<char>,
) -> Option<Seq<char>> {
    match g.property_text(properties, key) {
        Some(t) => if t == title || t.len() == 0 {
            None
        } else {
            Some(t)
        },
        None => None,
    }
}

/// What describes an element beside its title is the first of its body,
/// description, message, address, state and kind that is neither empty nor
/// the title again.
pub proof fn law_descriptions_add_to_the_title(
    g: GraphData,
    properties: Seq<Property>,
    title: Seq<char>,
)
    ensures
        ({
            let told = |key: Seq<char>| adding(g, properties, key, title);
            g.first_other_text(properties, evidence::secondary_keys(), title) == if told(
                "body"@,
            ) is Some {
                told("body"@)
            } else if told("description"@) is Some {
                told("description"@)
            } else if told("message"@) is Some {
                told("message"@)
            } else if told("url"@) is Some {
                told("url"@)
            } else if told("state"@) is Some {
                told("state"@)
            } else {
                told("kind"@)
            }
        }),
        g.first_other_text(properties, evidence::secondary_keys(), title) matches Some(found)
            ==> found != title && found.len() > 0,
{
    reveal_with_fuel(GraphData::first_other_text, 7);
    let keys = evidence::secondary_keys();
    assert(keys.len() == 6 && keys[0] == "body"@ && keys[1] == "description"@ && keys[2]
        == "message"@ && keys[3] == "url"@ && keys[4] == "state"@ && keys[5] == "kind"@);
    let k1 = keys.drop_first();
    let k2 = k1.drop_first();
    let k3 = k2.drop_first();
    let k4 = k3.drop_first();
    let k5 = k4.drop_first();
    assert(k1[0] == keys[1] && k2[0] == keys[2] && k3[0] == keys[3] && k4[0] == keys[4] && k5[0]
        == keys[5]);
    assert(k5.drop_first().len() == 0);
}

/// On the command line an element goes by the first of its name, title, path,
/// text and kind that it has, and by nothing where it has none.
pub proof fn law_elements_go_by_their_name(g: GraphData, properties: Seq<Property>)
    ensures
        ({
            let at = |key: Seq<char>| g.property_at(properties, key);
            let shown = |i: int| g.displayed(properties[i].value@);
            g.concise(properties, GraphData::concise_keys()) == if at("name"@) is Some {
                shown(at("name"@)->0)
            } else if at("title"@) is Some {
                shown(at("title"@)->0)
            } else if at("path"@) is Some {
                shown(at("path"@)->0)
            } else if at("text"@) is Some {
                shown(at("text"@)->0)
            } else if at("kind"@) is Some {
                shown(at("kind"@)->0)
            } else {
                Seq::empty()
            }
        }),
{
    reveal_with_fuel(GraphData::concise, 6);
    let keys = GraphData::concise_keys();
    assert(keys.len() == 5 && keys[0] == "name"@ && keys[1] == "title"@ && keys[2] == "path"@
        && keys[3] == "text"@ && keys[4] == "kind"@);
    let k1 = keys.drop_first();
    let k2 = k1.drop_first();
    let k3 = k2.drop_first();
    let k4 = k3.drop_first();
    assert(k1[0] == keys[1] && k2[0] == keys[2] && k3[0] == keys[3] && k4[0] == keys[4]);
    assert(k4.drop_first().len() == 0);
}

/// A shown number reads back as the number, and a shown text is the text.
pub proof fn law_shown_values_read_back(g: GraphData, value: ValueView)
    ensures
        value matches ValueView::Int(n) ==> digits::i64_value(graph::formatted(value)) == Some(n)
            && digits::i64_value(g.displayed(value)) == Some(n) && (graph::searchable(value) matches Some(
            t,
        ) && digits::i64_value(t) == Some(n)),
        value matches ValueView::Text(s) ==> graph::formatted(value) == s && g.displayed(value) == s
            && graph::searchable(value) == Some(s),
        value matches ValueView::Bool(b) ==> graph::formatted(value) == (if b {
            "true"@
        } else {
            "false"@
        }) && g.displayed(value) == graph::formatted(value) && graph::searchable(value) == Some(
            graph::formatted(value),
        ),
        value matches ValueView::Node(id) ==> (graph::searchable(value) matches Some(t)
            && digits::u64_value(t) == Some(id)),
        value matches ValueView::Edge(id) ==> (graph::searchable(value) matches Some(t)
            && digits::u64_value(t) == Some(id)),
        value is Null ==> graph::formatted(value) == "null"@ && g.displayed(value) == "null"@,
        value matches ValueView::Float(_, shortest, fixed) ==> graph::formatted(value) == fixed
            && g.displayed(value) == shortest && graph::searchable(value) == Some(shortest),
        value is Null || value is Bytes <==> graph::searchable(value) is None,
{
    match value {
        ValueView::Int(n) => {
            digits_laws::law_signed_decimal_round_trips(n);
        },
        ValueView::Node(id) => {
            digits::law_decimal_round_trips(id);
        },
        ValueView::Edge(id) => {
            digits::law_decimal_round_trips(id);
        },
        _ => {},
    }
}

/// A reference is shown with its kind, its id and the label of what it refers
/// to; one to nothing stored is shown without a label.
pub proof fn law_references_show_their_label(g: GraphData, i: int)
    requires
        0 <= i < g.nodes@.len(),
        forall|j: int| 0 <= j < i ==> (#[trigger] g.nodes@[j]).id != g.nodes@[i].id,
    ensures
        g.nodes@[i].label < g.symbols@.len() ==> g.displayed(ValueView::Node(g.nodes@[i].id))
            == "node:"@ + digits::decimal(g.nodes@[i].id as nat) + ":"@
            + g.symbols@[g.nodes@[i].label as int]@,
        forall|id: NodeId|
            (forall|j: int| 0 <= j < g.nodes@.len() ==> (#[trigger] g.nodes@[j]).id != id)
                ==> #[trigger] g.displayed(ValueView::Node(id)) == "node:"@ + digits::decimal(
                id as nat,
            ),
{
    law_node_lookup_is_exact(g, g.nodes@[i].id);
    assert forall|id: NodeId|
        (forall|j: int| 0 <= j < g.nodes@.len() ==> (#[trigger] g.nodes@[j]).id
            != id) implies #[trigger] g.displayed(ValueView::Node(id)) == "node:"@
        + digits::decimal(id as nat) by {
        law_node_lookup_is_exact(g, id);
    }
}

} // verus!
