//! The list of versions in a Maven metadata document.
//!
//! The versions stand three levels below the root of the document: in
//! `versioning`, in `versions`, one node for each. Every node there is taken
//! for one candidate, by its text. Nothing further down is looked at, and
//! nothing further down is kept.
//!
//! A text whose elements are nested deeper than [`MAX_NESTING`] is not read
//! at all: the parser goes as deep as the elements do.

use crate::nesting::{nesting, nesting_of};
use crate::text::{texts, to_chars};
use vstd::prelude::*;

verus! {

/// A node of a document: its name, and what is kept of the nodes directly
/// below it.
#[derive(Debug)]
pub struct Node<T> {
    /// The local name of an element; empty for any other node.
    pub name: String,
    /// What is kept of the nodes directly below this one, in the order of
    /// the document.
    pub children: Vec<T>,
}

/// The upper part of a metadata document: the nodes below the root element,
/// the nodes below each of those, and of the nodes below each of these the
/// text. The text of a node is its own for a text or a comment, and for an
/// element that of its first child, where that child is a text.
#[derive(Debug)]
pub struct Metadata {
    pub children: Vec<Node<Node<Option<String>>>>,
}

/// The deepest nesting of elements with which a text is handed to the
/// parser.
pub const MAX_NESTING: usize = 128;

/// The upper part of the document that `roxmltree::Document::parse` reads
/// from a text, or nothing where it refuses the text.
pub uninterp spec fn xml_outline(text: Seq<char>) -> Option<Metadata>;

/// Reads a text with `roxmltree::Document::parse` and hands out three levels
/// below its root element (`root_element()`): of each node the local tag
/// name (`tag_name().name()`) and its children (`children()`), and of the
/// nodes on the third level the text (`text()`). The contract claims only
/// that the outcome is the one that goes by the name `xml_outline`: the text
/// alone decides it. An error of the crate is handed on as `None`.
///
/// `roxmltree` reads an element within the call that reads its parent (in
/// its tokenizer `parse_element` and `parse_content` call each other), so a
/// text with elements nested without end would exhaust the stack. The
/// `requires` leaves out the texts that are nested deeper than
/// [`MAX_NESTING`]; nothing below walks the document by calls within calls.
#[verifier::external_body]
fn metadata_from_str(text: &str) -> (metadata: Option<Metadata>)
    requires
        nesting(text@) <= MAX_NESTING,
    ensures
        metadata == xml_outline(text@),
{
    roxmltree::Document::parse(text).ok().map(|document| Metadata {
        children: document.root_element().children().map(|child| Node {
            name: child.tag_name().name().to_string(),
            children: child.children().map(|grandchild| Node {
                name: grandchild.tag_name().name().to_string(),
                children: grandchild.children().map(|leaf| leaf.text().map(String::from)).collect(),
            }).collect(),
        }).collect(),
    })
}

/// The children of those among `nodes` that are named `name`, in order.
pub open spec fn children_of_named<T>(nodes: Seq<Node<T>>, name: Seq<char>) -> Seq<T>
    decreases nodes.len(),
{
    if nodes.len() == 0 {
        Seq::empty()
    } else {
        children_of_named(nodes.drop_last(), name) + if nodes.last().name@ == name {
            nodes.last().children@
        } else {
            Seq::empty()
        }
    }
}

/// What the nodes that stand for candidates hold: the texts of the children
/// of every `versions` below every `versioning` below the root.
pub open spec fn listed(metadata: Metadata) -> Seq<Option<String>> {
    children_of_named(children_of_named(metadata.children@, "versioning"@), "versions"@)
}

/// Whether each of the nodes has a text.
pub open spec fn all_have_text(nodes: Seq<Option<String>>) -> bool {
    forall|i: int| 0 <= i < nodes.len() ==> (#[trigger] nodes[i]) is Some
}

/// The texts of the nodes, in order.
pub open spec fn texts_of(nodes: Seq<Option<String>>) -> Seq<Seq<char>> {
    Seq::new(nodes.len(), |i: int| nodes[i].unwrap()@)
}

/// The children of the named nodes of two lists, one behind the other, are
/// those of the first list and then those of the second.
pub proof fn lemma_children_of_named_concat<T>(a: Seq<Node<T>>, b: Seq<Node<T>>, name: Seq<char>)
    ensures
        children_of_named(a + b, name) == children_of_named(a, name) + children_of_named(b, name),
    decreases b.len(),
{
    if b.len() == 0 {
        assert(a + b =~= a);
        assert(children_of_named(a, name) + children_of_named(b, name) =~= children_of_named(
            a,
            name,
        ));
    } else {
        lemma_children_of_named_concat(a, b.drop_last(), name);
        assert((a + b).drop_last() =~= a + b.drop_last());
        assert((a + b).last() == b.last());
        let tail = if b.last().name@ == name {
            b.last().children@
        } else {
            Seq::empty()
        };
        assert(children_of_named(a + b, name) =~= children_of_named(a, name) + (children_of_named(
            b.drop_last(),
            name,
        ) + tail));
    }
}

/// One more node adds its children where it is named `name`, and nothing
/// else.
proof fn lemma_children_of_named_step<T>(nodes: Seq<Node<T>>, i: int, name: Seq<char>)
    requires
        0 <= i < nodes.len(),
    ensures
        children_of_named(nodes.take(i + 1), name) == children_of_named(nodes.take(i), name) + if
            nodes[i].name@ == name {
            nodes[i].children@
        } else {
            Seq::empty()
        },
{
    assert(nodes.take(i + 1).drop_last() =~= nodes.take(i));
    assert(nodes.take(i + 1).last() == nodes[i]);
}

impl Metadata {
    /// Reads an XML text and hands out the upper part of the document.
    /// There is none for a text whose elements are nested deeper than
    /// [`MAX_NESTING`], whatever else it holds.
    pub fn parse(text: &str) -> (metadata: Option<Metadata>)
        ensures
            metadata == if nesting(text@) <= MAX_NESTING {
                xml_outline(text@)
            } else {
                None
            },
    {
        let chars = to_chars(text);
        if nesting_of(&chars) > MAX_NESTING {
            return None;
        }
        metadata_from_str(text)
    }
}

/// Takes the texts of `nodes` one by one onto `found`, which holds those of
/// the nodes `seen` before. `complete` is given up as soon as a node has no
/// text.
fn take_texts(
    nodes: &Vec<Option<String>>,
    found: &mut Vec<String>,
    complete: &mut bool,
    seen: Ghost<Seq<Option<String>>>,
)
    requires
        *old(complete) == all_have_text(seen@),
        *old(complete) ==> texts(old(found)@) == texts_of(seen@),
    ensures
        *final(complete) == all_have_text(seen@ + nodes@),
        *final(complete) ==> texts(final(found)@) == texts_of(seen@ + nodes@),
{
    let ghost mut done = seen@;
    let mut k: usize = 0;
    assert(nodes@.take(0) =~= Seq::empty());
    assert(seen@ + nodes@.take(0) =~= seen@);
    while k < nodes.len()
        invariant
            k <= nodes.len(),
            done == seen@ + nodes@.take(k as int),
            *complete == all_have_text(done),
            *complete ==> texts(found@) == texts_of(done),
        decreases nodes.len() - k,
    {
        let ghost before = done;
        proof {
            done = done.push(nodes@[k as int]);
            assert(done =~= seen@ + nodes@.take(k + 1));
            assert(done.drop_last() =~= before);
        }
        match &nodes[k] {
            Some(text) => {
                if *complete {
                    let ghost held = found@;
                    found.push(text.clone());
                    proof {
                        assert forall|i: int| 0 <= i < done.len() implies (
                        #[trigger] done[i]) is Some by {
                            if i < before.len() {
                                assert(before[i] is Some);
                            }
                        }
                        assert forall|i: int| 0 <= i < done.len() implies texts(found@)[i]
                            == texts_of(done)[i] by {
                            if i < before.len() {
                                assert(texts(held)[i] == texts_of(before)[i]);
                            }
                        }
                        assert(texts(found@) =~= texts_of(done));
                    }
                } else {
                    proof {
                        let i = choose|i: int|
                            0 <= i < before.len() && !((#[trigger] before[i]) is Some);
                        assert(done[i] == before[i]);
                    }
                }
            },
            None => {
                proof {
                    assert(done[done.len() - 1] is None);
                }
                *complete = false;
            },
        }
        k += 1;
    }
    assert(nodes@.take(k as int) =~= nodes@);
}

/// The candidates that a metadata document lists, in the order of the
/// document: the texts of all nodes in `versions` in `versioning` below the
/// root. Where one of these nodes has no text there is no list.
pub fn listed_versions(metadata: &Metadata) -> (list: Option<Vec<String>>)
    ensures
        match list {
            Some(found) => all_have_text(listed(*metadata)) && texts(found@) == texts_of(
                listed(*metadata),
            ),
            None => !all_have_text(listed(*metadata)),
        },
{
    proof {
        reveal_strlit("versioning");
        reveal_strlit("versions");
    }
    let versioning = "versioning".to_owned();
    let versions = "versions".to_owned();
    let mut found: Vec<String> = Vec::new();
    let mut complete = true;
    let ghost mut seen: Seq<Option<String>> = Seq::empty();
    let ghost outer = metadata.children@;
    let mut i: usize = 0;
    assert(outer.take(0) =~= Seq::empty());
    assert(texts(found@) =~= texts_of(seen));
    while i < metadata.children.len()
        invariant
            i <= metadata.children.len(),
            outer == metadata.children@,
            versioning@ == "versioning"@,
            versions@ == "versions"@,
            seen == children_of_named(
                children_of_named(outer.take(i as int), versioning@),
                versions@,
            ),
            complete == all_have_text(seen),
            complete ==> texts(found@) == texts_of(seen),
        decreases metadata.children.len() - i,
    {
        let child = &metadata.children[i];
        let ghost upper = children_of_named(outer.take(i as int), versioning@);
        proof {
            lemma_children_of_named_step(outer, i as int, versioning@);
        }
        if child.name == versioning {
            let ghost inner = child.children@;
            let ghost start = seen;
            let mut j: usize = 0;
            proof {
                assert(inner.take(0) =~= Seq::empty());
                assert(start + children_of_named(inner.take(0), versions@) =~= start);
            }
            while j < child.children.len()
                invariant
                    j <= child.children.len(),
                    inner == child.children@,
                    versions@ == "versions"@,
                    seen == start + children_of_named(inner.take(j as int), versions@),
                    complete == all_have_text(seen),
                    complete ==> texts(found@) == texts_of(seen),
                decreases child.children.len() - j,
            {
                let grandchild = &child.children[j];
                proof {
                    lemma_children_of_named_step(inner, j as int, versions@);
                }
                if grandchild.name == versions {
                    take_texts(&grandchild.children, &mut found, &mut complete, Ghost(seen));
                    proof {
                        seen = seen + grandchild.children@;
                        assert(seen =~= start + children_of_named(inner.take(j + 1), versions@));
                    }
                } else {
                    proof {
                        assert(seen =~= start + children_of_named(inner.take(j + 1), versions@));
                    }
                }
                j += 1;
            }
            proof {
                assert(inner.take(j as int) =~= inner);
                lemma_children_of_named_concat(upper, inner, versions@);
            }
        } else {
            proof {
                assert(upper + Seq::empty() =~= upper);
            }
        }
        i += 1;
    }
    assert(outer.take(i as int) =~= outer);
    if complete {
        Some(found)
    } else {
        None
    }
}

} // verus!
