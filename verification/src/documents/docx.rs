//! The text of a Word document: the XML tree of its body, walked breadth
//! first, gives the text of each of its `t` (text run) elements.

use std::collections::VecDeque;
use vstd::prelude::*;

verus! {

/// What the library reads of an XML element: its local name, the text
/// directly inside it, and its child elements in document order.
#[derive(Debug)]
pub struct XmlNode {
    pub name: String,
    pub text: String,
    pub children: Vec<XmlNode>,
}

/// The number of elements in the tree rooted at `node`.
pub open spec fn node_size(node: XmlNode) -> nat
    decreases node,
{
    1 + forest_size(node.children@)
}

/// The number of elements in the trees rooted at `nodes`.
pub open spec fn forest_size(nodes: Seq<XmlNode>) -> nat
    decreases nodes,
{
    if nodes.len() == 0 {
        0
    } else {
        node_size(nodes[0]) + forest_size(nodes.drop_first())
    }
}

/// The size of two forests side by side is the sum of their sizes.
pub proof fn lemma_forest_size_concat(a: Seq<XmlNode>, b: Seq<XmlNode>)
    ensures
        forest_size(a + b) == forest_size(a) + forest_size(b),
    decreases a.len(),
{
    if a.len() == 0 {
        assert(a + b =~= b);
    } else {
        lemma_forest_size_concat(a.drop_first(), b);
        assert((a + b).drop_first() =~= a.drop_first() + b);
        assert((a + b)[0] == a[0]);
    }
}

/// Replacing the first node of a queue by its children makes the queue smaller.
pub proof fn lemma_forest_size_step(queue: Seq<XmlNode>)
    requires
        queue.len() > 0,
    ensures
        forest_size(queue.drop_first() + queue[0].children@) == forest_size(queue) - 1,
{
    lemma_forest_size_concat(queue.drop_first(), queue[0].children@);
    assert(node_size(queue[0]) == 1 + forest_size(queue[0].children@));
    assert(forest_size(queue) == node_size(queue[0]) + forest_size(queue.drop_first()));
}

/// The text that one element adds: the text of a `t` element and a line
/// break, nothing for any other element.
pub open spec fn run_text(node: XmlNode) -> Seq<char> {
    if node.name@ == "t"@ {
        node.text@ + "\n"@
    } else {
        seq![]
    }
}

/// The text of the elements met when the trees in `queue` are walked breadth
/// first: take the first element of the queue, add its text, and put its
/// children at the back of the queue.
pub open spec fn bfs_text(queue: Seq<XmlNode>) -> Seq<char>
    decreases forest_size(queue),
{
    if queue.len() == 0 {
        seq![]
    } else {
        proof {
            lemma_forest_size_step(queue);
        }
        run_text(queue[0]) + bfs_text(queue.drop_first() + queue[0].children@)
    }
}

/// The text of a Word document whose body is the tree at `root`: the text
/// of its runs in breadth-first order, each followed by a line break, or
/// three spaces where there is none.
pub open spec fn docx_text_of(root: XmlNode) -> Seq<char> {
    let text = bfs_text(seq![root]);
    if text.len() == 0 {
        "   "@
    } else {
        text
    }
}

/// The text of one element: a `t` element gives its own text and a line
/// break; an element of any other name gives nothing.
pub proof fn lemma_run_text(node: XmlNode)
    ensures
        node.name@ == seq!['t'] ==> run_text(node) == node.text@ + seq!['\n'],
        node.name@ != seq!['t'] ==> run_text(node) == Seq::<char>::empty(),
{
    reveal_strlit("t");
    reveal_strlit("\n");
    assert("t"@ =~= seq!['t']);
    assert("\n"@ =~= seq!['\n']);
}

/// The breadth-first walk: an empty queue gives no text; otherwise the first
/// element gives its text, and then the rest of the queue is walked with all
/// of that element's children, whatever its name, queued at the back.
pub proof fn lemma_bfs_text_walk(queue: Seq<XmlNode>)
    ensures
        queue.len() == 0 ==> bfs_text(queue) == Seq::<char>::empty(),
        queue.len() > 0 ==> bfs_text(queue) == run_text(queue[0]) + bfs_text(
            queue.drop_first() + queue[0].children@,
        ),
{
}

/// The text of a document is the text of its walk from the root, or three
/// spaces where the walk gives none.
pub proof fn lemma_docx_text_of(root: XmlNode)
    ensures
        bfs_text(seq![root]).len() > 0 ==> docx_text_of(root) == bfs_text(seq![root]),
        bfs_text(seq![root]).len() == 0 ==> docx_text_of(root) == seq![' ', ' ', ' '],
{
    reveal_strlit("   ");
    assert("   "@ =~= seq![' ', ' ', ' ']);
}

/// The text read out of a Word document is never empty.
pub proof fn lemma_docx_text_nonempty(root: XmlNode)
    ensures
        docx_text_of(root).len() > 0,
{
    reveal_strlit("   ");
}

/// The nodes that a queue of references points to.
pub open spec fn pointed(queue: Seq<&XmlNode>) -> Seq<XmlNode> {
    queue.map_values(|node: &XmlNode| *node)
}

/// The text of the runs of the tree at `root`, walked breadth first, each
/// followed by a line break; three spaces where the tree holds no run.
pub fn docx_text(root: &XmlNode) -> (text: String)
    ensures
        text@ == docx_text_of(*root),
{
    let mut result = String::new();
    let mut queue: VecDeque<&XmlNode> = VecDeque::new();
    let run_name = "t".to_owned();
    queue.push_back(root);
    proof {
        assert(pointed(queue@) =~= seq![*root]);
    }
    loop
        invariant
            run_name@ == "t"@,
            result@ + bfs_text(pointed(queue@)) == bfs_text(seq![*root]),
        ensures
            result@ == bfs_text(seq![*root]),
        decreases forest_size(pointed(queue@)),
    {
        let ghost before = pointed(queue@);
        let node = match queue.pop_front() {
            Some(node) => node,
            None => {
                assert(before =~= Seq::<XmlNode>::empty());
                assert(result@ =~= bfs_text(seq![*root]));
                break ;
            },
        };
        proof {
            assert(before[0] == *node);
            assert(pointed(queue@) =~= before.drop_first());
            lemma_forest_size_step(before);
        }
        let ghost text_before = result@;
        if node.name == run_name {
            result.append(node.text.as_str());
            result.append("\n");
        }
        assert(result@ =~= text_before + run_text(*node));
        let ghost queue_start = queue@;
        let count = node.children.len();
        for i in 0..count
            invariant
                count == node.children@.len(),
                queue@ =~= queue_start + node.children@.take(i as int).map_values(
                    |child: XmlNode| &child,
                ),
        {
            queue.push_back(&node.children[i]);
            assert(node.children@.take(i + 1) =~= node.children@.take(i as int).push(
                node.children@[i as int],
            ));
        }
        proof {
            assert(pointed(queue@) =~= before.drop_first() + node.children@);
            assert(result@ + bfs_text(pointed(queue@)) =~= text_before + bfs_text(before));
        }
    }
    if result.as_str().is_empty() {
        result.append("   ");
    }
    result
}


/// `minidom::Element`, the parsed XML tree.
#[verifier::external_type_specification]
#[verifier::external_body]
pub struct ExXmlElement(minidom::Element);

/// `minidom::Error`, why an XML text could not be parsed.
#[verifier::external_type_specification]
#[verifier::external_body]
pub struct ExXmlError(minidom::Error);

/// What `minidom` makes of an XML text: the tree of its root element
/// (names, direct text and child elements), or `None` where the text is
/// not a well-formed, namespaced XML document.
pub uninterp spec fn parsed_xml(xml: Seq<char>) -> Option<XmlNode>;

/// The tree of an element as the library reads it: `Element::name`,
/// `Element::text` (the text nodes directly inside it) and, for each of
/// `Element::children`, its tree. Nothing is stated of it here; it is the
/// conversion that `parse_xml` hands its result through.
#[verifier::external_body]
fn node_of_element(element: &minidom::Element) -> XmlNode {
    XmlNode {
        name: element.name().to_owned(),
        text: element.text(),
        children: element.children().map(|child| node_of_element(child)).collect(),
    }
}

/// Parses `xml` with `minidom` (`Element::from_str`, through `str::parse`)
/// and reads the tree of the root element. The contract claims only that
/// the result is a function of `xml`, named `parsed_xml`, and that it is an
/// error exactly where that name has no tree.
#[verifier::external_body]
fn parse_xml(xml: &str) -> (res: Result<XmlNode, minidom::Error>)
    ensures
        res is Ok <==> parsed_xml(xml@) is Some,
        res matches Ok(node) ==> parsed_xml(xml@) == Some(node),
{
    xml.parse::<minidom::Element>().map(|element| node_of_element(&element))
}

/// Why the text of a Word document could not be read.
#[derive(Debug, Clone, Copy, PartialEq, Eq, Structural)]
pub enum DocxError {
    /// The archive is not a zip archive, or holds no `word/document.xml`.
    MissingDocumentXml,
    /// `word/document.xml` is not an XML document.
    MalformedXml,
}

/// The text of a Word document whose `word/document.xml` holds `xml`.
pub fn docx_text_from_xml(xml: &str) -> (res: Result<String, DocxError>)
    ensures
        parsed_xml(xml@) is None ==> res == Err::<String, DocxError>(DocxError::MalformedXml),
        parsed_xml(xml@) matches Some(root) ==> (res matches Ok(text) && text@ == docx_text_of(
            root,
        )),
{
    match parse_xml(xml) {
        Ok(root) => Ok(docx_text(&root)),
        Err(_) => Err(DocxError::MalformedXml),
    }
}

} // verus!
