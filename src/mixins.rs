use vstd::prelude::*;
use crate::effect::NodeRegistry;

verus! {

/// Something that can be applied to a node, under the namespace `Target`.
pub trait Mixin<Target> {
    fn mixin(&self, nodes: &mut NodeRegistry, node: usize)
        requires
            old(nodes).wf(),
            node < old(nodes).node_count(),
            old(nodes).is_mounted(node as int),
        ensures
            final(nodes).wf(),
            final(nodes).node_count() == old(nodes).node_count(),
    ;
}

/// The namespace of mixins that apply themselves as they are.
#[derive(Debug)]
pub struct Identity;

/// A mixin that sets a node's text once.
pub struct RawText {
    text: String,
}

impl RawText {
    pub closed spec fn content(&self) -> Seq<char> {
        self.text@
    }

    /// Sets the text of `node`; nothing else changes.
    pub fn apply(&self, nodes: &mut NodeRegistry, node: usize)
        requires
            old(nodes).wf(),
            node < old(nodes).node_count(),
        ensures
            final(nodes).wf(),
            final(nodes).text_of(node as int) == self.content(),
            final(nodes).node_count() == old(nodes).node_count(),
            final(nodes).effect_count() == old(nodes).effect_count(),
            forall|n: int|
                #![trigger final(nodes).disposal_list(n)]
                0 <= n < old(nodes).node_count() ==> final(nodes).disposal_list(n) == old(
                nodes).disposal_list(n) && final(nodes).is_mounted(n) == old(nodes).is_mounted(n),
            forall|n: int|
                #![trigger final(nodes).text_of(n)]
                0 <= n < old(nodes).node_count() && n != node ==> final(nodes).text_of(n) == old(
                nodes).text_of(n),
    {
        nodes.set_text(node, self.text.clone());
    }
}

impl Mixin<Identity> for RawText {
    fn mixin(&self, nodes: &mut NodeRegistry, node: usize) {
        self.apply(nodes, node);
    }
}

/// A mixin that keeps a node's text equal to the latest value of a string
/// cell, through an effect fed by subscription `subscription` of that cell.
pub struct Text {
    subscription: usize,
}

impl Text {
    pub closed spec fn source(&self) -> usize {
        self.subscription
    }

    /// Binds the text of the mounted `node` to the subscription: a new
    /// effect, last in the node's disposal list, which
    /// `NodeRegistry::update_text` runs.
    pub fn bind(&self, nodes: &mut NodeRegistry, node: usize) -> (r: usize)
        requires
            old(nodes).wf(),
            node < old(nodes).node_count(),
            old(nodes).is_mounted(node as int),
        ensures
            final(nodes).wf(),
            r == old(nodes).effect_count(),
            final(nodes).node_count() == old(nodes).node_count(),
            final(nodes).effect_count() == old(nodes).effect_count() + 1,
            final(nodes).owner(r as int) == node,
            final(nodes).subscription(r as int) == self.source(),
            !final(nodes).is_disposed(r as int),
            final(nodes).disposal_list(node as int) == old(nodes).disposal_list(node as int).push(r),
            forall|n: int|
                #![trigger final(nodes).disposal_list(n)]
                0 <= n < old(nodes).node_count() && n != node ==> final(nodes).disposal_list(n) == old(
                nodes).disposal_list(n),
            forall|n: int|
                #![trigger final(nodes).is_mounted(n)]
                0 <= n < old(nodes).node_count() ==> final(nodes).is_mounted(n) == old(nodes).is_mounted(n)
                    && final(nodes).text_of(n) == old(nodes).text_of(n),
            forall|e: int|
                #![trigger final(nodes).is_disposed(e)]
                0 <= e < old(nodes).effect_count() ==> final(nodes).is_disposed(e) == old(
                nodes).is_disposed(e) && final(nodes).owner(e) == old(nodes).owner(e) && final(
                nodes).subscription(e) == old(nodes).subscription(e),
    {
        nodes.spawn(node, self.subscription)
    }
}

impl Mixin<Identity> for Text {
    fn mixin(&self, nodes: &mut NodeRegistry, node: usize) {
        self.bind(nodes, node);
    }
}

/// A mixin that binds a node's text to subscription `subscription` of a
/// string cell.
pub fn text(subscription: usize) -> (r: Text)
    ensures
        r.source() == subscription,
{
    Text { subscription }
}

/// A mixin that sets a node's text to `text`, once.
pub fn raw_text(text: &str) -> (r: RawText)
    ensures
        r.content() == text@,
{
    RawText { text: text.to_owned() }
}

} // verus!
