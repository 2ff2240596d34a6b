use simple_xml_builder::XMLElement;
use vstd::prelude::*;
use vstd::string::StringExecFns;

verus! {

/// An element of an XML document as a mathematical value: its name, its
/// attributes in the order in which they were first set, and what it holds.
pub struct Xml {
    pub name: Seq<char>,
    pub attributes: Seq<(Seq<char>, Seq<char>)>,
    pub content: XmlContent,
}

/// What an element holds: nothing, other elements, or text.
pub enum XmlContent {
    Empty,
    Elements(Seq<Xml>),
    Text(Seq<char>),
}

/// `XMLElement` of `simple_xml_builder`: nothing of it is seen but through
/// `xml_tree`.
#[verifier::external_type_specification]
#[verifier::external_body]
pub struct ExXMLElement(XMLElement);

/// What an element of `simple_xml_builder` holds.
pub uninterp spec fn xml_tree(element: XMLElement) -> Xml;

/// A character as it stands in an attribute or in a text: the five
/// characters that XML reserves are written as entities.
pub open spec fn escaped_char(c: char) -> Seq<char> {
    if c == '&' {
        "&amp;"@
    } else if c == '"' {
        "&quot;"@
    } else if c == '\'' {
        "&apos;"@
    } else if c == '<' {
        "&lt;"@
    } else if c == '>' {
        "&gt;"@
    } else {
        seq![c]
    }
}

/// A text as it stands in an attribute or in an element.
pub open spec fn escaped(text: Seq<char>) -> Seq<char>
    decreases text.len(),
{
    if text.len() == 0 {
        Seq::empty()
    } else {
        escaped(text.drop_last()) + escaped_char(text.last())
    }
}

/// The place of the attribute `name` among `attributes`, from `from` on.
pub open spec fn attribute_index(attributes: Seq<(Seq<char>, Seq<char>)>, name: Seq<char>, from: int)
    -> Option<int>
    decreases attributes.len() - from,
{
    if from >= attributes.len() {
        None
    } else if attributes[from].0 == name {
        Some(from)
    } else {
        attribute_index(attributes, name, from + 1)
    }
}

/// The attributes after `name` is set to `value`: an attribute that is
/// there keeps its place and gets the value, a new one comes last.
pub open spec fn with_attribute(
    attributes: Seq<(Seq<char>, Seq<char>)>,
    name: Seq<char>,
    value: Seq<char>,
) -> Seq<(Seq<char>, Seq<char>)> {
    match attribute_index(attributes, name, 0) {
        Some(i) => attributes.update(i, (name, value)),
        None => attributes.push((name, value)),
    }
}

/// The elements that an element holds: none where it holds none or text.
pub open spec fn children(xml: Xml) -> Seq<Xml> {
    match xml.content {
        XmlContent::Elements(list) => list,
        _ => Seq::empty(),
    }
}

impl Xml {
    /// An empty element without attributes.
    pub open spec fn new(name: Seq<char>) -> Xml {
        Xml { name, attributes: Seq::empty(), content: XmlContent::Empty }
    }

    /// The element with the attribute `name` set to `value`.
    pub open spec fn attr(self, name: Seq<char>, value: Seq<char>) -> Xml {
        Xml { attributes: with_attribute(self.attributes, name, escaped(value)), ..self }
    }

    /// The element with `child` after the elements that it holds.
    pub open spec fn child(self, child: Xml) -> Xml {
        Xml { content: XmlContent::Elements(children(self).push(child)), ..self }
    }

    /// The element with `list` after the elements that it holds.
    pub open spec fn with_children(self, list: Seq<Xml>) -> Xml
        decreases list.len(),
    {
        if list.len() == 0 {
            self
        } else {
            self.with_children(list.drop_last()).child(list.last())
        }
    }

    /// The element with the text `text` in it.
    pub open spec fn text(self, text: Seq<char>) -> Xml {
        Xml { content: XmlContent::Text(escaped(text)), ..self }
    }
}

/// One element more in a list is one child more.
pub proof fn lemma_with_children_push(xml: Xml, list: Seq<Xml>, next: Xml)
    ensures
        xml.with_children(list.push(next)) == xml.with_children(list).child(next),
        !(xml.content is Text) ==> !(xml.with_children(list).content is Text),
    decreases list.len(),
{
    assert(list.push(next).drop_last() =~= list);
    if list.len() > 0 {
        lemma_with_children_push(xml, list.drop_last(), list.last());
        assert(list.drop_last().push(list.last()) =~= list);
    }
}

/// The parts `part(0)`, ..., `part(n - 1)` in one list.
pub open spec fn flat(n: nat, part: spec_fn(int) -> Seq<Xml>) -> Seq<Xml>
    decreases n,
{
    if n == 0 {
        Seq::empty()
    } else {
        flat((n - 1) as nat, part) + part(n - 1)
    }
}

/// `XMLElement::new`: an element with the given name, without attributes
/// and empty.
#[verifier::external_body]
fn new_element(name: &str) -> (element: XMLElement)
    ensures
        xml_tree(element) == Xml::new(name@),
{
    XMLElement::new(name)
}

/// `XMLElement::add_attribute`: sets the attribute `name` to the escaped
/// `value`. The attributes are kept in a map that keeps the order in
/// which its keys were first set.
#[verifier::external_body]
fn add_attribute(element: &mut XMLElement, name: &str, value: &str)
    ensures
        xml_tree(*final(element)) == xml_tree(*old(element)).attr(name@, value@),
{
    element.add_attribute(name, value)
}

/// `XMLElement::add_child`: puts `child` after the elements that the
/// element holds. The call panics on an element that holds text.
#[verifier::external_body]
fn add_child(element: &mut XMLElement, child: XMLElement)
    requires
        !(xml_tree(*old(element)).content is Text),
    ensures
        xml_tree(*final(element)) == xml_tree(*old(element)).child(xml_tree(child)),
{
    element.add_child(child)
}

/// `XMLElement::add_text`: puts the escaped `text` into the element. The
/// call panics on an element that is not empty.
#[verifier::external_body]
fn add_text(element: &mut XMLElement, text: &str)
    requires
        xml_tree(*old(element)).content is Empty,
    ensures
        xml_tree(*final(element)) == xml_tree(*old(element)).text(text@),
{
    element.add_text(text)
}

/// An element of a document that is being built.
///
/// `view` says what the element holds; the methods change just that.
pub trait Element: Sized {
    spec fn view(&self) -> Xml;

    /// Sets the namespace of the element and of what it holds.
    fn set_root_namespace(&mut self, namespace: &str)
        ensures
            final(self)@ == old(self)@.attr("xmlns"@, namespace@),
    ;

    /// Declares the namespace that the prefix `keyword` stands for.
    fn add_namespace(&mut self, keyword: &str, namespace: &str)
        ensures
            final(self)@ == old(self)@.attr("xmlns:"@ + keyword@, namespace@),
    ;

    /// Puts `child` after the elements that the element holds.
    fn add_child(&mut self, child: Self)
        requires
            !(old(self)@.content is Text),
        ensures
            final(self)@ == old(self)@.child(child@),
    ;

    /// Puts `value` into the element, which is empty.
    fn add_text(&mut self, value: &str)
        requires
            old(self)@.content is Empty,
        ensures
            final(self)@ == old(self)@.text(value@),
    ;

    /// Sets the attribute `name` to `value`.
    fn add_attribute(&mut self, name: &str, value: &str)
        ensures
            final(self)@ == old(self)@.attr(name@, value@),
    ;

    /// Sets the attribute `name` of the namespace `keyword` to `value`.
    fn add_attribute_ns(&mut self, keyword: &str, name: &str, value: &str)
        ensures
            final(self)@ == old(self)@.attr(keyword@ + ":"@ + name@, value@),
    ;
}

/// A document that is being built: a maker of elements.
pub trait Document {
    type Element: Element;

    /// An element with the given name, without attributes and empty.
    fn create_element(&self, name: &str) -> (element: Self::Element)
        ensures
            element@ == Xml::new(name@),
    ;
}

/// A document of `simple_xml_builder`.
pub struct DocumentWrapper {}

/// An element of `simple_xml_builder`.
pub struct ElementWrapper {
    pub inner: XMLElement,
}

impl Document for DocumentWrapper {
    type Element = ElementWrapper;

    fn create_element(&self, name: &str) -> (element: ElementWrapper) {
        ElementWrapper { inner: new_element(name) }
    }
}

impl Element for ElementWrapper {
    open spec fn view(&self) -> Xml {
        xml_tree(self.inner)
    }

    fn set_root_namespace(&mut self, namespace: &str) {
        add_attribute(&mut self.inner, "xmlns", namespace);
    }

    fn add_namespace(&mut self, keyword: &str, namespace: &str) {
        let mut name = String::from_str("xmlns:");
        name.append(keyword);
        add_attribute(&mut self.inner, name.as_str(), namespace);
    }

    fn add_child(&mut self, child: ElementWrapper) {
        add_child(&mut self.inner, child.inner);
    }

    fn add_text(&mut self, value: &str) {
        add_text(&mut self.inner, value);
    }

    fn add_attribute(&mut self, name: &str, value: &str) {
        add_attribute(&mut self.inner, name, value);
    }

    fn add_attribute_ns(&mut self, keyword: &str, name: &str, value: &str) {
        let mut full = String::from_str(keyword);
        full.append(":");
        full.append(name);
        add_attribute(&mut self.inner, full.as_str(), value);
    }
}

/// Puts `child` into `group`, which holds the elements of `list` so far.
pub(crate) fn push_child<E: Element>(
    group: &mut E,
    child: E,
    Ghost(base): Ghost<Xml>,
    Ghost(list): Ghost<Seq<Xml>>,
)
    requires
        !(base.content is Text),
        old(group)@ == base.with_children(list),
    ensures
        final(group)@ == base.with_children(list.push(child@)),
{
    proof {
        lemma_with_children_push(base, list, child@);
    }
    group.add_child(child);
}

} // verus!
