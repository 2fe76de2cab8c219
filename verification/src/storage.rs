//! The store: owner of every node record and of the interned strings.

use vstd::prelude::*;
use crate::graph::{Graph, bind, local_uri};
use crate::proofs::frames::{lemma_grown, lemma_rebound, lemma_relabelled};
use crate::proofs::lists::lemma_bind;
use crate::interned::{
    InternedQName, InternedString, QName, ToQName, intern_optional, optional_str, str_eq,
};
use crate::nodes::{
    Attribute, AttributeHandle, Comment, CommentHandle, Element, ElementHandle,
    ProcessingInstruction, ProcessingInstructionHandle, Root, RootHandle, Text, TextHandle,
};

verus! {

/// Owns the records of all nodes, by kind and in allocation order.
///
/// A handle is the position of a record in its list; records are never
/// removed, so a handle stays valid for as long as the store lives.
pub struct Storage {
    pub(crate) roots: Vec<Root>,
    pub(crate) elements: Vec<Element>,
    pub(crate) attributes: Vec<Attribute>,
    pub(crate) texts: Vec<Text>,
    pub(crate) comments: Vec<Comment>,
    pub(crate) processing_instructions: Vec<ProcessingInstruction>,
}

impl View for Storage {
    type V = Graph;

    open(crate) spec fn view(&self) -> Graph {
        Graph {
            roots: self.roots@.map_values(|n: Root| n@),
            elements: self.elements@.map_values(|n: Element| n@),
            attributes: self.attributes@.map_values(|n: Attribute| n@),
            texts: self.texts@.map_values(|n: Text| n@),
            comments: self.comments@.map_values(|n: Comment| n@),
            processing_instructions: self.processing_instructions@.map_values(
                |n: ProcessingInstruction| n@,
            ),
        }
    }
}

/// The position of the binding of `prefix` in `bindings`, if there is one.
pub(crate) fn find_binding(
    bindings: &Vec<(InternedString, InternedString)>,
    prefix: &str,
) -> (r: Option<usize>)
    ensures
        match r {
            Some(i) => i < bindings.len() && bindings[i as int].0@ == prefix@,
            None => forall|j: int| 0 <= j < bindings.len() ==> (#[trigger] bindings[j]).0@ !=
                prefix@,
        },
{
    let mut i: usize = 0;
    while i < bindings.len()
        invariant
            i <= bindings.len(),
            forall|j: int| 0 <= j < i ==> (#[trigger] bindings[j]).0@ != prefix@,
        decreases bindings.len() - i,
    {
        if str_eq(bindings[i].0.as_slice(), prefix) {
            return Some(i);
        }
        i += 1;
    }
    None
}

impl Storage {
    /// The tree invariant holds of the store.
    pub open spec fn wf(&self) -> bool {
        self@.wf()
    }

    /// An empty store.
    pub fn new() -> (s: Storage)
        ensures
            s@ == Graph::empty(),
            s.wf(),
    {
        let s = Storage {
            roots: Vec::new(),
            elements: Vec::new(),
            attributes: Vec::new(),
            texts: Vec::new(),
            comments: Vec::new(),
            processing_instructions: Vec::new(),
        };
        proof {
            assert(s@.roots =~= Seq::empty());
            assert(s@.elements =~= Seq::empty());
            assert(s@.attributes =~= Seq::empty());
            assert(s@.texts =~= Seq::empty());
            assert(s@.comments =~= Seq::empty());
            assert(s@.processing_instructions =~= Seq::empty());
            assert(s@.ranked_by(Seq::empty()));
        }
        s
    }

    /// Interns `s`.
    fn intern(&self, s: &str) -> (r: InternedString)
        ensures
            r@ == s@,
    {
        InternedString::from_str(s)
    }

    /// Interns both parts of `q`.
    fn intern_qname(&self, q: QName<'_>) -> (r: InternedQName)
        ensures
            r@ == q@,
    {
        InternedQName::from_qname(q)
    }

    /// Allocates a root without children.
    pub fn create_root(&mut self) -> (r: RootHandle)
        requires
            old(self).wf(),
        ensures
            final(self).wf(),
            final(self)@ == old(self)@.with_new_root(),
            r.0 == old(self)@.roots.len(),
    {
        let index = self.roots.len();
        let root = Root { children: Vec::new() };
        assert(root@.children =~= Seq::empty());
        self.roots.push(root);
        proof {
            assert(self@.roots =~= old(self)@.roots.push(root@));
            lemma_grown(old(self)@, self@);
        }
        RootHandle(index)
    }

    /// Allocates an element named `name`, without parent, children,
    /// attributes, preferred prefix or prefix bindings.
    pub fn create_element<'n, N: ToQName<'n>>(&mut self, name: N) -> (e: ElementHandle)
        requires
            old(self).wf(),
        ensures
            final(self).wf(),
            final(self)@ == old(self)@.with_new_element(name.qname()),
            e.0 == old(self)@.elements.len(),
    {
        let name = self.intern_qname(name.to_qname());
        let index = self.elements.len();
        let element = Element {
            name,
            preferred_prefix: None,
            children: Vec::new(),
            parent: None,
            attributes: Vec::new(),
            prefix_to_namespace: Vec::new(),
        };
        assert(element@.prefixes =~= Seq::empty());
        self.elements.push(element);
        proof {
            assert(self@.elements =~= old(self)@.elements.push(element@));
            lemma_grown(old(self)@, self@);
        }
        ElementHandle(index)
    }

    /// Allocates an attribute named `name` with value `value`, without
    /// parent or preferred prefix.
    pub fn create_attribute<'n, N: ToQName<'n>>(
        &mut self,
        name: N,
        value: &str,
    ) -> (a: AttributeHandle)
        requires
            old(self).wf(),
        ensures
            final(self).wf(),
            final(self)@ == old(self)@.with_new_attribute(name.qname(), value@),
            a.0 == old(self)@.attributes.len(),
    {
        let name = self.intern_qname(name.to_qname());
        let value = self.intern(value);
        let index = self.attributes.len();
        let attribute = Attribute { name, preferred_prefix: None, value, parent: None };
        self.attributes.push(attribute);
        proof {
            assert(self@.attributes =~= old(self)@.attributes.push(attribute@));
            lemma_grown(old(self)@, self@);
        }
        AttributeHandle(index)
    }

    /// Allocates a text node holding `text`, without parent.
    pub fn create_text(&mut self, text: &str) -> (t: TextHandle)
        requires
            old(self).wf(),
        ensures
            final(self).wf(),
            final(self)@ == old(self)@.with_new_text(text@),
            t.0 == old(self)@.texts.len(),
    {
        let text = self.intern(text);
        let index = self.texts.len();
        let node = Text { text, parent: None };
        self.texts.push(node);
        proof {
            assert(self@.texts =~= old(self)@.texts.push(node@));
            lemma_grown(old(self)@, self@);
        }
        TextHandle(index)
    }

    /// Allocates a comment holding `text`, without parent.
    pub fn create_comment(&mut self, text: &str) -> (c: CommentHandle)
        requires
            old(self).wf(),
        ensures
            final(self).wf(),
            final(self)@ == old(self)@.with_new_comment(text@),
            c.0 == old(self)@.comments.len(),
    {
        let text = self.intern(text);
        let index = self.comments.len();
        let node = Comment { text, parent: None };
        self.comments.push(node);
        proof {
            assert(self@.comments =~= old(self)@.comments.push(node@));
            lemma_grown(old(self)@, self@);
        }
        CommentHandle(index)
    }

    /// Allocates a processing instruction with the given target and
    /// optional value, without parent.
    pub fn create_processing_instruction(&mut self, target: &str, value: Option<&str>) -> (p:
        ProcessingInstructionHandle)
        requires
            old(self).wf(),
        ensures
            final(self).wf(),
            final(self)@ == old(self)@.with_new_processing_instruction(target@,
                optional_str(value)),
            p.0 == old(self)@.processing_instructions.len(),
    {
        let interned_target = self.intern(target);
        let interned_value = intern_optional(value);
        let index = self.processing_instructions.len();
        let node = ProcessingInstruction {
            target: interned_target,
            value: interned_value,
            parent: None,
        };
        self.processing_instructions.push(node);
        proof {
            assert(self@.processing_instructions =~=
                old(self)@.processing_instructions.push(node@));
            lemma_grown(old(self)@, self@);
        }
        ProcessingInstructionHandle(index)
    }

    /// The record of `r`.
    pub fn root(&self, r: RootHandle) -> (node: &Root)
        requires
            self@.has_root(r),
        ensures
            node@ == self@.roots[r.0 as int],
    {
        &self.roots[r.0]
    }

    /// The record of `e`.
    pub fn element(&self, e: ElementHandle) -> (node: &Element)
        requires
            self@.has_element(e),
        ensures
            node@ == self@.elements[e.0 as int],
    {
        &self.elements[e.0]
    }

    /// The record of `a`.
    pub fn attribute(&self, a: AttributeHandle) -> (node: &Attribute)
        requires
            self@.has_attribute(a),
        ensures
            node@ == self@.attributes[a.0 as int],
    {
        &self.attributes[a.0]
    }

    /// The record of `t`.
    pub fn text(&self, t: TextHandle) -> (node: &Text)
        requires
            self@.has_text(t),
        ensures
            node@ == self@.texts[t.0 as int],
    {
        &self.texts[t.0]
    }

    /// The record of `c`.
    pub fn comment(&self, c: CommentHandle) -> (node: &Comment)
        requires
            self@.has_comment(c),
        ensures
            node@ == self@.comments[c.0 as int],
    {
        &self.comments[c.0]
    }

    /// The record of `p`.
    pub fn processing_instruction(
        &self,
        p: ProcessingInstructionHandle,
    ) -> (node: &ProcessingInstruction)
        requires
            self@.has_processing_instruction(p),
        ensures
            node@ == self@.processing_instructions[p.0 as int],
    {
        &self.processing_instructions[p.0]
    }

    /// Renames `element`.
    pub fn element_set_name<'n, N: ToQName<'n>>(&mut self, element: ElementHandle, name: N)
        requires
            old(self).wf(),
            old(self)@.has_element(element),
        ensures
            final(self).wf(),
            final(self)@ == old(self)@.with_element_name(element, name.qname()),
    {
        let name = self.intern_qname(name.to_qname());
        self.elements[element.0].name = name;
        proof {
            assert(self@.elements =~= old(self)@.with_element_name(element, name@).elements);
            lemma_relabelled(old(self)@, self@);
        }
    }

    /// Binds `prefix` to `namespace_uri` on `element`, in place of what
    /// `element` itself bound `prefix` to before.
    pub fn element_register_prefix(
        &mut self,
        element: ElementHandle,
        prefix: &str,
        namespace_uri: &str,
    )
        requires
            old(self).wf(),
            old(self)@.has_element(element),
        ensures
            final(self).wf(),
            final(self)@ == old(self)@.with_prefix(element, prefix@, namespace_uri@),
            local_uri(final(self)@.prefixes_of(element), prefix@) == Some(namespace_uri@),
            forall|other: Seq<char>|
                other != prefix@ ==> #[trigger] local_uri(final(self)@.prefixes_of(element), other)
                    == local_uri(old(self)@.prefixes_of(element), other),
    {
        let ghost before = self@.prefixes_of(element);
        let uri = self.intern(namespace_uri);
        let found = find_binding(&self.elements[element.0].prefix_to_namespace, prefix);
        proof {
            lemma_bind(before, prefix@, namespace_uri@);
        }
        match found {
            Some(i) => {
                proof {
                    assert(before[i as int].0 == prefix@);
                }
                self.elements[element.0].prefix_to_namespace[i].1 = uri;
            },
            None => {
                let interned = self.intern(prefix);
                self.elements[element.0].prefix_to_namespace.push((interned, uri));
            },
        }
        proof {
            assert(self@.prefixes_of(element) =~= bind(before, prefix@, namespace_uri@));
            assert(self@.elements =~= old(self)@.with_prefix(element, prefix@,
                namespace_uri@).elements);
            lemma_rebound(old(self)@, self@, element);
        }
    }

    /// Sets or clears the prefix that serializers should prefer for `element`.
    pub fn element_set_preferred_prefix(&mut self, element: ElementHandle, prefix: Option<&str>)
        requires
            old(self).wf(),
            old(self)@.has_element(element),
        ensures
            final(self).wf(),
            final(self)@ == old(self)@.with_element_preferred_prefix(element, optional_str(prefix)),
    {
        let interned = intern_optional(prefix);
        self.elements[element.0].preferred_prefix = interned;
        proof {
            let h = old(self)@.with_element_preferred_prefix(element, optional_str(prefix));
            assert(self@.elements =~= h.elements);
            lemma_relabelled(old(self)@, self@);
        }
    }

    /// Sets or clears the prefix that serializers should prefer for `attribute`.
    pub fn attribute_set_preferred_prefix(
        &mut self,
        attribute: AttributeHandle,
        prefix: Option<&str>,
    )
        requires
            old(self).wf(),
            old(self)@.has_attribute(attribute),
        ensures
            final(self).wf(),
            final(self)@ == old(self)@.with_attribute_preferred_prefix(attribute,
                optional_str(prefix)),
    {
        let interned = intern_optional(prefix);
        self.attributes[attribute.0].preferred_prefix = interned;
        proof {
            let h = old(self)@.with_attribute_preferred_prefix(attribute, optional_str(prefix));
            assert(self@.attributes =~= h.attributes);
            lemma_relabelled(old(self)@, self@);
        }
    }

    /// Replaces the character data of `text`.
    pub fn text_set_text(&mut self, text: TextHandle, new_text: &str)
        requires
            old(self).wf(),
            old(self)@.has_text(text),
        ensures
            final(self).wf(),
            final(self)@ == old(self)@.with_text(text, new_text@),
    {
        let new_text = self.intern(new_text);
        self.texts[text.0].text = new_text;
        proof {
            let h = old(self)@.with_text(text, new_text@);
            assert(self@.texts =~= h.texts);
            lemma_relabelled(old(self)@, self@);
        }
    }

    /// Replaces the text of `comment`.
    pub fn comment_set_text(&mut self, comment: CommentHandle, new_text: &str)
        requires
            old(self).wf(),
            old(self)@.has_comment(comment),
        ensures
            final(self).wf(),
            final(self)@ == old(self)@.with_comment_text(comment, new_text@),
    {
        let new_text = self.intern(new_text);
        self.comments[comment.0].text = new_text;
        proof {
            let h = old(self)@.with_comment_text(comment, new_text@);
            assert(self@.comments =~= h.comments);
            lemma_relabelled(old(self)@, self@);
        }
    }

    /// Replaces the target of `pi`.
    pub fn processing_instruction_set_target(
        &mut self,
        pi: ProcessingInstructionHandle,
        new_target: &str,
    )
        requires
            old(self).wf(),
            old(self)@.has_processing_instruction(pi),
        ensures
            final(self).wf(),
            final(self)@ == old(self)@.with_processing_instruction_target(pi, new_target@),
    {
        let new_target = self.intern(new_target);
        self.processing_instructions[pi.0].target = new_target;
        proof {
            let h = old(self)@.with_processing_instruction_target(pi, new_target@);
            assert(self@.processing_instructions =~= h.processing_instructions);
            lemma_relabelled(old(self)@, self@);
        }
    }

    /// Sets or clears the value of `pi`.
    pub fn processing_instruction_set_value(
        &mut self,
        pi: ProcessingInstructionHandle,
        new_value: Option<&str>,
    )
        requires
            old(self).wf(),
            old(self)@.has_processing_instruction(pi),
        ensures
            final(self).wf(),
            final(self)@ == old(self)@.with_processing_instruction_value(pi,
                optional_str(new_value)),
    {
        let interned = intern_optional(new_value);
        self.processing_instructions[pi.0].value = interned;
        proof {
            let h = old(self)@.with_processing_instruction_value(pi, optional_str(new_value));
            assert(self@.processing_instructions =~= h.processing_instructions);
            lemma_relabelled(old(self)@, self@);
        }
    }
}

} // verus!
