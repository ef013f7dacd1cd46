//! An HTML page parsed by `nipper`, and the selection operations the
//! scrapers use on it.
//!
//! The elements of a page are addressed by handles: a handle is the position
//! of the element among all elements of the parsed page (`*` at parse time).
//! A selection is a list of handles, in the order `nipper` gives them.
use std::collections::HashMap;

use nipper::{Document, NodeId};
use vstd::prelude::*;

verus! {

#[verifier::external_type_specification]
#[verifier::external_body]
pub struct ExDocument(Document);

#[verifier::external_type_specification]
#[verifier::external_body]
pub struct ExNodeId(NodeId);

/// Whether `nipper` (through `selectors`) accepts `selector` as a CSS selector.
pub uninterp spec fn css_selector_ok(selector: Seq<char>) -> bool;

/// The handles of the elements of the page `source`, after the elements
/// `removed` were detached in that order, that match `selector`, as
/// `Document::select` gives them.
pub uninterp spec fn document_matches(
    source: Seq<char>,
    removed: Seq<usize>,
    selector: Seq<char>,
) -> Seq<usize>;

/// The handles of the descendants of element `node` that match `selector`,
/// as `Selection::select` gives them for the selection of `node` alone.
pub uninterp spec fn descendant_matches(
    source: Seq<char>,
    removed: Seq<usize>,
    node: usize,
    selector: Seq<char>,
) -> Seq<usize>;

/// The text of element `node` and its descendants (`Node::text`).
pub uninterp spec fn element_text(source: Seq<char>, removed: Seq<usize>, node: usize) -> Seq<
    char,
>;

/// The value of attribute `name` of element `node` (`Node::attr`).
pub uninterp spec fn element_attr(
    source: Seq<char>,
    removed: Seq<usize>,
    node: usize,
    name: Seq<char>,
) -> Option<Seq<char>>;

/// The serialized HTML of element `node`, the element included (`Node::html`).
pub uninterp spec fn element_html(source: Seq<char>, removed: Seq<usize>, node: usize) -> Seq<
    char,
>;

/// Whether `selector` is a CSS selector that `nipper` accepts
/// (`nipper::Matcher::new` succeeds). `Document::select` and
/// `Selection::select` panic on any other selector.
#[verifier::external_body]
pub fn selector_is_valid(selector: &str) -> (ok: bool)
    ensures
        ok == css_selector_ok(selector@),
{
    nipper::Matcher::new(selector).is_ok()
}

/// A parsed HTML page.
pub struct Page {
    source: String,
    document: Document,
    elements: Vec<NodeId>,
    handles: HashMap<NodeId, usize>,
    removed: Ghost<Seq<usize>>,
}

impl Page {
    /// The text the page was parsed from.
    pub closed spec fn source(&self) -> Seq<char> {
        self.source@
    }

    /// The elements detached so far, in order.
    pub closed spec fn removed(&self) -> Seq<usize> {
        self.removed@
    }

    /// The number of elements the page had when it was parsed.
    pub closed spec fn element_count(&self) -> nat {
        self.elements@.len()
    }

    /// Every handle of `nodes` addresses an element of the page.
    pub open spec fn valid(&self, nodes: Seq<usize>) -> bool {
        forall|i: int| 0 <= i < nodes.len() ==> #[trigger] nodes[i] < self.element_count()
    }

    /// Parses `html` (`nipper::Document::from`) and numbers its elements in
    /// the order `Document::select("*")` gives them.
    #[verifier::external_body]
    pub fn parse(html: &str) -> (page: Page)
        ensures
            page.source() == html@,
            page.removed() == Seq::<usize>::empty(),
    {
        let document = Document::from(html);
        let elements: Vec<NodeId> = document.select("*").nodes().iter().map(|n| n.id).collect();
        let handles: HashMap<NodeId, usize> = elements.iter().enumerate().map(|(i, id)| (*id, i)).collect();
        Page { source: html.to_string(), document, elements, handles, removed: Ghost(Seq::empty()) }
    }

    /// The elements of the whole page that match `selector`
    /// (`Document::select`).
    #[verifier::external_body]
    pub fn select(&self, selector: &str) -> (r: Vec<usize>)
        requires
            css_selector_ok(selector@),
        ensures
            r@ == document_matches(self.source(), self.removed(), selector@),
            self.valid(r@),
    {
        self.document.select(selector).nodes().iter().map(|n| self.handles[&n.id]).collect()
    }

    /// The descendants of element `node` that match `selector`
    /// (`Selection::select` on the selection of that element alone).
    #[verifier::external_body]
    pub fn select_under(&self, node: usize, selector: &str) -> (r: Vec<usize>)
        requires
            node < self.element_count(),
            css_selector_ok(selector@),
        ensures
            r@ == descendant_matches(self.source(), self.removed(), node, selector@),
            self.valid(r@),
    {
        let element = nipper::Node::new(self.elements[node], self.document.root().tree);
        nipper::Selection::from(element).select(selector).nodes().iter().map(
            |n| self.handles[&n.id],
        ).collect()
    }

    /// The text of element `node` and its descendants (`Node::text`).
    #[verifier::external_body]
    pub fn element_text(&self, node: usize) -> (r: String)
        requires
            node < self.element_count(),
        ensures
            r@ == element_text(self.source(), self.removed(), node),
    {
        nipper::Node::new(self.elements[node], self.document.root().tree).text().to_string()
    }

    /// The value of attribute `name` of element `node` (`Node::attr`).
    #[verifier::external_body]
    pub fn element_attr(&self, node: usize, name: &str) -> (r: Option<String>)
        requires
            node < self.element_count(),
        ensures
            match r {
                Some(v) => element_attr(self.source(), self.removed(), node, name@) == Some(v@),
                None => element_attr(self.source(), self.removed(), node, name@) is None,
            },
    {
        nipper::Node::new(self.elements[node], self.document.root().tree).attr(name).map(
            |v| v.to_string(),
        )
    }

    /// The serialized HTML of element `node` (`Node::html`).
    #[verifier::external_body]
    pub fn element_html(&self, node: usize) -> (r: String)
        requires
            node < self.element_count(),
        ensures
            r@ == element_html(self.source(), self.removed(), node),
    {
        nipper::Node::new(self.elements[node], self.document.root().tree).html().to_string()
    }

    /// Detaches element `node` from its parent (`Node::remove_from_parent`).
    #[verifier::external_body]
    pub fn remove_element(&mut self, node: usize)
        requires
            node < old(self).element_count(),
        ensures
            final(self).source() == old(self).source(),
            final(self).removed() == old(self).removed().push(node),
            final(self).element_count() == old(self).element_count(),
    {
        nipper::Node::new(self.elements[node], self.document.root().tree).remove_from_parent();
        self.removed = Ghost(self.removed@.push(node));
    }
}

/// `acc` followed by the items of `items` that are not yet in it, in order.
pub open spec fn append_new(acc: Seq<usize>, items: Seq<usize>) -> Seq<usize>
    decreases items.len(),
{
    if items.len() == 0 {
        acc
    } else if acc.contains(items[0]) {
        append_new(acc, items.drop_first())
    } else {
        append_new(acc.push(items[0]), items.drop_first())
    }
}

/// The descendants of the elements of `scope` that match `selector`, each
/// once, in the order `Selection::select` gives them: element by element of
/// `scope`, and for each in document order.
pub open spec fn selection_matches(
    source: Seq<char>,
    removed: Seq<usize>,
    scope: Seq<usize>,
    selector: Seq<char>,
) -> Seq<usize>
    decreases scope.len(),
{
    if scope.len() == 0 {
        Seq::empty()
    } else {
        append_new(
            selection_matches(source, removed, scope.drop_last(), selector),
            descendant_matches(source, removed, scope.last(), selector),
        )
    }
}

proof fn lemma_append_new_holds(acc: Seq<usize>, items: Seq<usize>)
    ensures
        forall|x: usize| acc.contains(x) ==> #[trigger] append_new(acc, items).contains(x),
        forall|k: int| 0 <= k < items.len() ==> append_new(acc, items).contains(#[trigger] items[k]),
        forall|x: usize| #[trigger]
            append_new(acc, items).contains(x) ==> acc.contains(x) || items.contains(x),
    decreases items.len(),
{
    if items.len() > 0 {
        let rest = items.drop_first();
        let next = if acc.contains(items[0]) {
            acc
        } else {
            acc.push(items[0])
        };
        lemma_append_new_holds(next, rest);
        assert(append_new(acc, items) == append_new(next, rest));
        assert forall|x: usize| acc.contains(x) implies #[trigger] append_new(acc, items).contains(
            x,
        ) by {
            if !next.contains(x) {
                let i = choose|i: int| 0 <= i < acc.len() && acc[i] == x;
                assert(next[i] == x);
            }
        }
        assert forall|k: int| 0 <= k < items.len() implies append_new(acc, items).contains(
            #[trigger] items[k],
        ) by {
            if k == 0 {
                if !acc.contains(items[0]) {
                    assert(next[acc.len() as int] == items[0]);
                }
            } else {
                assert(items[k] == rest[k - 1]);
            }
        }
        assert forall|x: usize| #[trigger]
            append_new(acc, items).contains(x) implies acc.contains(x) || items.contains(x) by {
            if next.contains(x) && !acc.contains(x) {
                let i = choose|i: int| 0 <= i < next.len() && next[i] == x;
                assert(items[0] == x);
            }
            if rest.contains(x) {
                let i = choose|i: int| 0 <= i < rest.len() && rest[i] == x;
                assert(items[i + 1] == x);
            }
        }
    } else {
        assert(append_new(acc, items) == acc);
    }
}

/// A selection within `scope` holds every match among the descendants of
/// every element of `scope`, and nothing else.
pub proof fn lemma_selection_matches_all(
    source: Seq<char>,
    removed: Seq<usize>,
    scope: Seq<usize>,
    selector: Seq<char>,
)
    ensures
        forall|k: int, j: int|
            0 <= k < scope.len() && 0 <= j < descendant_matches(
                source,
                removed,
                scope[k],
                selector,
            ).len() ==> selection_matches(source, removed, scope, selector).contains(
                #[trigger] descendant_matches(source, removed, scope[k], selector)[j],
            ),
        forall|x: usize| #[trigger]
            selection_matches(source, removed, scope, selector).contains(x) ==> exists|k: int|
                0 <= k < scope.len() && #[trigger] descendant_matches(
                    source,
                    removed,
                    scope[k],
                    selector,
                ).contains(x),
    decreases scope.len(),
{
    if scope.len() > 0 {
        let init = scope.drop_last();
        let acc = selection_matches(source, removed, init, selector);
        let last = descendant_matches(source, removed, scope.last(), selector);
        lemma_selection_matches_all(source, removed, init, selector);
        lemma_append_new_holds(acc, last);
        assert forall|k: int, j: int|
            0 <= k < scope.len() && 0 <= j < descendant_matches(
                source,
                removed,
                scope[k],
                selector,
            ).len() implies selection_matches(source, removed, scope, selector).contains(
            #[trigger] descendant_matches(source, removed, scope[k], selector)[j],
        ) by {
            if k < init.len() {
                assert(init[k] == scope[k]);
                assert(acc.contains(descendant_matches(source, removed, init[k], selector)[j]));
            } else {
                assert(scope[k] == scope.last());
            }
        }
        assert forall|x: usize| #[trigger]
            selection_matches(source, removed, scope, selector).contains(x) implies exists|k: int|
            0 <= k < scope.len() && #[trigger] descendant_matches(
                source,
                removed,
                scope[k],
                selector,
            ).contains(x) by {
            if acc.contains(x) {
                let k = choose|k: int|
                    0 <= k < init.len() && #[trigger] descendant_matches(
                        source,
                        removed,
                        init[k],
                        selector,
                    ).contains(x);
                assert(init[k] == scope[k]);
            } else {
                assert(last.contains(x));
                assert(scope[scope.len() - 1] == scope.last());
            }
        }
    }
}

/// The texts of the elements of `nodes`, one after the other (`Selection::text`).
pub open spec fn selection_text(source: Seq<char>, removed: Seq<usize>, nodes: Seq<usize>) -> Seq<
    char,
>
    decreases nodes.len(),
{
    if nodes.len() == 0 {
        Seq::empty()
    } else {
        selection_text(source, removed, nodes.drop_last()) + element_text(
            source,
            removed,
            nodes.last(),
        )
    }
}

/// Attribute `name` of the first element of `nodes` (`Selection::attr`).
pub open spec fn selection_attr(
    source: Seq<char>,
    removed: Seq<usize>,
    nodes: Seq<usize>,
    name: Seq<char>,
) -> Option<Seq<char>> {
    if nodes.len() == 0 {
        None
    } else {
        element_attr(source, removed, nodes[0], name)
    }
}

/// The first element of `nodes` alone, or nothing (`Selection::first`).
pub open spec fn first_of(nodes: Seq<usize>) -> Seq<usize> {
    if nodes.len() == 0 {
        Seq::empty()
    } else {
        seq![nodes[0]]
    }
}

/// The last element of `nodes` alone, or nothing (`Selection::last`).
pub open spec fn last_of(nodes: Seq<usize>) -> Seq<usize> {
    if nodes.len() == 0 {
        Seq::empty()
    } else {
        seq![nodes.last()]
    }
}

/// The selection of the first element of `nodes` (`Selection::first`).
pub fn first(nodes: &Vec<usize>) -> (r: Vec<usize>)
    ensures
        r@ == first_of(nodes@),
{
    let mut r: Vec<usize> = Vec::new();
    if nodes.len() > 0 {
        r.push(nodes[0]);
    }
    assert(r@ =~= first_of(nodes@));
    r
}

/// The selection of the last element of `nodes` (`Selection::last`).
pub fn last(nodes: &Vec<usize>) -> (r: Vec<usize>)
    ensures
        r@ == last_of(nodes@),
{
    let mut r: Vec<usize> = Vec::new();
    if nodes.len() > 0 {
        r.push(nodes[nodes.len() - 1]);
    }
    assert(r@ =~= last_of(nodes@));
    r
}

fn holds(v: &Vec<usize>, x: usize) -> (b: bool)
    ensures
        b == v@.contains(x),
{
    let mut i: usize = 0;
    while i < v.len()
        invariant
            i <= v.len(),
            forall|k: int| 0 <= k < i ==> v@[k] != x,
        decreases v.len() - i,
    {
        if v[i] == x {
            assert(v@[i as int] == x);
            return true;
        }
        i = i + 1;
    }
    false
}

impl Page {
    /// The descendants of the elements of `scope` that match `selector`
    /// (`Selection::select`).
    pub fn select_within(&self, scope: &Vec<usize>, selector: &str) -> (r: Vec<usize>)
        requires
            self.valid(scope@),
            css_selector_ok(selector@),
        ensures
            r@ == selection_matches(self.source(), self.removed(), scope@, selector@),
            self.valid(r@),
    {
        let mut r: Vec<usize> = Vec::new();
        let mut i: usize = 0;
        assert(scope@.take(0) =~= Seq::<usize>::empty());
        while i < scope.len()
            invariant
                i <= scope.len(),
                self.valid(scope@),
                css_selector_ok(selector@),
                self.valid(r@),
                r@ == selection_matches(
                    self.source(),
                    self.removed(),
                    scope@.take(i as int),
                    selector@,
                ),
            decreases scope.len() - i,
        {
            let items = self.select_under(scope[i], selector);
            let ghost before = r@;
            assert(scope@.take(i + 1).drop_last() =~= scope@.take(i as int));
            assert(scope@.take(i + 1).last() == scope@[i as int]);
            let mut k: usize = 0;
            assert(items@.skip(0) =~= items@);
            while k < items.len()
                invariant
                    k <= items.len(),
                    self.valid(items@),
                    self.valid(r@),
                    append_new(r@, items@.skip(k as int)) == append_new(before, items@),
                decreases items.len() - k,
            {
                assert(items@.skip(k as int).drop_first() =~= items@.skip(k + 1));
                assert(items@.skip(k as int)[0] == items@[k as int]);
                if !holds(&r, items[k]) {
                    r.push(items[k]);
                }
                k = k + 1;
            }
            assert(items@.skip(k as int) =~= Seq::<usize>::empty());
            i = i + 1;
        }
        assert(scope@.take(scope.len() as int) =~= scope@);
        r
    }

    /// The texts of the elements of `nodes`, concatenated (`Selection::text`).
    pub fn text_of(&self, nodes: &Vec<usize>) -> (r: String)
        requires
            self.valid(nodes@),
        ensures
            r@ == selection_text(self.source(), self.removed(), nodes@),
    {
        let mut r = String::new();
        let mut i: usize = 0;
        assert(nodes@.take(0) =~= Seq::<usize>::empty());
        while i < nodes.len()
            invariant
                i <= nodes.len(),
                self.valid(nodes@),
                r@ == selection_text(self.source(), self.removed(), nodes@.take(i as int)),
            decreases nodes.len() - i,
        {
            assert(nodes@.take(i + 1).drop_last() =~= nodes@.take(i as int));
            let t = self.element_text(nodes[i]);
            r.append(t.as_str());
            i = i + 1;
        }
        assert(nodes@.take(nodes.len() as int) =~= nodes@);
        r
    }

    /// Attribute `name` of the first element of `nodes` (`Selection::attr`).
    pub fn attr_of(&self, nodes: &Vec<usize>, name: &str) -> (r: Option<String>)
        requires
            self.valid(nodes@),
        ensures
            match r {
                Some(v) => selection_attr(self.source(), self.removed(), nodes@, name@) == Some(v@),
                None => selection_attr(self.source(), self.removed(), nodes@, name@) is None,
            },
    {
        if nodes.len() == 0 {
            None
        } else {
            self.element_attr(nodes[0], name)
        }
    }

    /// Attribute `name` of the first element of `nodes`, or `default`
    /// (`Selection::attr_or`).
    pub fn attr_or(&self, nodes: &Vec<usize>, name: &str, default: &str) -> (r: String)
        requires
            self.valid(nodes@),
        ensures
            r@ == match selection_attr(self.source(), self.removed(), nodes@, name@) {
                Some(v) => v,
                None => default@,
            },
    {
        match self.attr_of(nodes, name) {
            Some(v) => v,
            None => default.to_owned(),
        }
    }

    /// Detaches every element of `nodes` (`Selection::remove`).
    pub fn remove_all(&mut self, nodes: &Vec<usize>)
        requires
            old(self).valid(nodes@),
        ensures
            final(self).source() == old(self).source(),
            final(self).removed() == old(self).removed() + nodes@,
            final(self).element_count() == old(self).element_count(),
    {
        let mut i: usize = 0;
        assert(old(self).removed() + nodes@.take(0) =~= old(self).removed());
        while i < nodes.len()
            invariant
                i <= nodes.len(),
                self.source() == old(self).source(),
                self.element_count() == old(self).element_count(),
                old(self).valid(nodes@),
                self.removed() == old(self).removed() + nodes@.take(i as int),
            decreases nodes.len() - i,
        {
            self.remove_element(nodes[i]);
            assert(old(self).removed() + nodes@.take(i + 1) =~= (old(self).removed() + nodes@.take(
                i as int,
            )).push(nodes@[i as int]));
            i = i + 1;
        }
        assert(nodes@.take(nodes.len() as int) =~= nodes@);
    }
}

} // verus!
