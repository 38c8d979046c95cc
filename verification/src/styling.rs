//! Presentation descriptors: what an element may carry as its style, and the
//! table that assigns one to each kind of element.

use vstd::prelude::*;

verus! {

/// One chunk of a style descriptor: plain declarations, or rules under a media
/// query.
#[derive(Debug, PartialEq, Eq)]
pub enum CssGroup {
    Rules { value: String },
    Media { query: String, rules: Vec<String> },
}

/// What a `CssGroup` holds, as sequences of characters.
pub enum CssGroupView {
    Rules { value: Seq<char> },
    Media { query: Seq<char>, rules: Seq<Seq<char>> },
}

impl View for CssGroup {
    type V = CssGroupView;

    open spec fn view(&self) -> CssGroupView {
        match self {
            CssGroup::Rules { value } => CssGroupView::Rules { value: value@ },
            CssGroup::Media { query, rules } => CssGroupView::Media {
                query: query@,
                rules: Seq::new(rules@.len(), |i: int| rules@[i]@),
            },
        }
    }
}

fn clone_strings(v: &Vec<String>) -> (r: Vec<String>)
    ensures
        r@ == v@,
{
    let mut out: Vec<String> = Vec::new();
    let mut i: usize = 0;
    while i < v.len()
        invariant
            i <= v.len(),
            out@ == v@.take(i as int),
        decreases v.len() - i,
    {
        out.push(v[i].clone());
        assert(out@ =~= v@.take(i + 1));
        i = i + 1;
    }
    assert(v@.take(v.len() as int) =~= v@);
    out
}

impl Clone for CssGroup {
    fn clone(&self) -> (r: Self)
        ensures
            r@ == self@,
    {
        match self {
            CssGroup::Rules { value } => CssGroup::Rules { value: value.clone() },
            CssGroup::Media { query, rules } => {
                let r = CssGroup::Media { query: query.clone(), rules: clone_strings(rules) };
                assert(r@->rules =~= self@->rules);
                r
            },
        }
    }
}

/// A style descriptor: a sequence of chunks. The empty one styles nothing.
#[derive(Debug, PartialEq, Eq)]
pub struct Css {
    pub groups: Vec<CssGroup>,
}

impl View for Css {
    type V = Seq<CssGroupView>;

    open spec fn view(&self) -> Seq<CssGroupView> {
        Seq::new(self.groups@.len(), |i: int| self.groups@[i]@)
    }
}

impl Clone for Css {
    fn clone(&self) -> (r: Self)
        ensures
            r@ == self@,
    {
        let mut groups: Vec<CssGroup> = Vec::new();
        let mut i: usize = 0;
        while i < self.groups.len()
            invariant
                i <= self.groups.len(),
                groups@.len() == i,
                forall|k: int| 0 <= k < i ==> groups@[k]@ == self.groups@[k]@,
            decreases self.groups.len() - i,
        {
            groups.push(self.groups[i].clone());
            i = i + 1;
        }
        let r = Css { groups };
        assert(r@ =~= self@);
        r
    }
}

impl Default for Css {
    fn default() -> (r: Self)
        ensures
            r@.len() == 0,
    {
        Css { groups: Vec::new() }
    }
}

impl Css {
    /// The descriptor that styles nothing.
    pub fn empty() -> (r: Css)
        ensures
            r@ == Seq::<CssGroupView>::empty(),
    {
        let r = Css { groups: Vec::new() };
        assert(r@ =~= Seq::<CssGroupView>::empty());
        r
    }

    /// A descriptor of one chunk of plain declarations.
    pub fn str(value: &str) -> (r: Css)
        ensures
            r@ == seq![CssGroupView::Rules { value: value@ }],
    {
        let mut groups: Vec<CssGroup> = Vec::new();
        groups.push(CssGroup::Rules { value: String::from_str(value) });
        let r = Css { groups };
        assert(r@ =~= seq![CssGroupView::Rules { value: value@ }]);
        r
    }

    /// Whether the descriptor has no chunk.
    pub fn is_empty(&self) -> (r: bool)
        ensures
            r == (self@.len() == 0),
    {
        self.groups.len() == 0
    }
}

/// The style of each kind of element that a document is rendered to.
#[derive(Debug, Clone, PartialEq, Eq)]
pub struct CMarkStyle {
    pub container: Css,
    pub p: Css,
    pub h1: Css,
    pub h2: Css,
    pub h3: Css,
    pub h4: Css,
    pub h5: Css,
    pub h6: Css,
    pub table: Css,
    pub thead: Css,
    pub tbody: Css,
    pub tr: Css,
    pub th: Css,
    pub td: Css,
    pub blockquote: Css,
    pub ol: Css,
    pub ul: Css,
    pub li: Css,
    pub dl: Css,
    pub dt: Css,
    pub dd: Css,
    pub a: Css,
    pub img: Css,
    pub em: Css,
    pub strong: Css,
    pub del: Css,
    pub sub: Css,
    pub sup: Css,
    pub codeblock: Css,
}

/// What a `CMarkStyle` holds, as mathematical sequences.
pub struct StyleView {
    pub container: Seq<CssGroupView>,
    pub p: Seq<CssGroupView>,
    pub h1: Seq<CssGroupView>,
    pub h2: Seq<CssGroupView>,
    pub h3: Seq<CssGroupView>,
    pub h4: Seq<CssGroupView>,
    pub h5: Seq<CssGroupView>,
    pub h6: Seq<CssGroupView>,
    pub table: Seq<CssGroupView>,
    pub thead: Seq<CssGroupView>,
    pub tbody: Seq<CssGroupView>,
    pub tr: Seq<CssGroupView>,
    pub th: Seq<CssGroupView>,
    pub td: Seq<CssGroupView>,
    pub blockquote: Seq<CssGroupView>,
    pub ol: Seq<CssGroupView>,
    pub ul: Seq<CssGroupView>,
    pub li: Seq<CssGroupView>,
    pub dl: Seq<CssGroupView>,
    pub dt: Seq<CssGroupView>,
    pub dd: Seq<CssGroupView>,
    pub a: Seq<CssGroupView>,
    pub img: Seq<CssGroupView>,
    pub em: Seq<CssGroupView>,
    pub strong: Seq<CssGroupView>,
    pub del: Seq<CssGroupView>,
    pub sub: Seq<CssGroupView>,
    pub sup: Seq<CssGroupView>,
    pub codeblock: Seq<CssGroupView>,
}

impl View for CMarkStyle {
    type V = StyleView;

    open spec fn view(&self) -> StyleView {
        StyleView {
            container: self.container@,
            p: self.p@,
            h1: self.h1@,
            h2: self.h2@,
            h3: self.h3@,
            h4: self.h4@,
            h5: self.h5@,
            h6: self.h6@,
            table: self.table@,
            thead: self.thead@,
            tbody: self.tbody@,
            tr: self.tr@,
            th: self.th@,
            td: self.td@,
            blockquote: self.blockquote@,
            ol: self.ol@,
            ul: self.ul@,
            li: self.li@,
            dl: self.dl@,
            dt: self.dt@,
            dd: self.dd@,
            a: self.a@,
            img: self.img@,
            em: self.em@,
            strong: self.strong@,
            del: self.del@,
            sub: self.sub@,
            sup: self.sup@,
            codeblock: self.codeblock@,
        }
    }
}

impl StyleView {
    /// The table in which every descriptor is empty.
    pub open spec fn plain() -> StyleView {
        StyleView {
            container: Seq::empty(),
            p: Seq::empty(),
            h1: Seq::empty(),
            h2: Seq::empty(),
            h3: Seq::empty(),
            h4: Seq::empty(),
            h5: Seq::empty(),
            h6: Seq::empty(),
            table: Seq::empty(),
            thead: Seq::empty(),
            tbody: Seq::empty(),
            tr: Seq::empty(),
            th: Seq::empty(),
            td: Seq::empty(),
            blockquote: Seq::empty(),
            ol: Seq::empty(),
            ul: Seq::empty(),
            li: Seq::empty(),
            dl: Seq::empty(),
            dt: Seq::empty(),
            dd: Seq::empty(),
            a: Seq::empty(),
            img: Seq::empty(),
            em: Seq::empty(),
            strong: Seq::empty(),
            del: Seq::empty(),
            sub: Seq::empty(),
            sup: Seq::empty(),
            codeblock: Seq::empty(),
        }
    }
}

impl Default for CMarkStyle {
    fn default() -> (r: Self)
        ensures
            r@ == StyleView::plain(),
    {
        let r = CMarkStyle {
            container: Css::empty(),
            p: Css::empty(),
            h1: Css::empty(),
            h2: Css::empty(),
            h3: Css::empty(),
            h4: Css::empty(),
            h5: Css::empty(),
            h6: Css::empty(),
            table: Css::empty(),
            thead: Css::empty(),
            tbody: Css::empty(),
            tr: Css::empty(),
            th: Css::empty(),
            td: Css::empty(),
            blockquote: Css::empty(),
            ol: Css::empty(),
            ul: Css::empty(),
            li: Css::empty(),
            dl: Css::empty(),
            dt: Css::empty(),
            dd: Css::empty(),
            a: Css::empty(),
            img: Css::empty(),
            em: Css::empty(),
            strong: Css::empty(),
            del: Css::empty(),
            sub: Css::empty(),
            sup: Css::empty(),
            codeblock: Css::empty(),
        };
        assert(r@.container =~= Seq::empty());
        assert(r@.p =~= Seq::empty());
        assert(r@.h1 =~= Seq::empty());
        assert(r@.h2 =~= Seq::empty());
        assert(r@.h3 =~= Seq::empty());
        assert(r@.h4 =~= Seq::empty());
        assert(r@.h5 =~= Seq::empty());
        assert(r@.h6 =~= Seq::empty());
        assert(r@.table =~= Seq::empty());
        assert(r@.thead =~= Seq::empty());
        assert(r@.tbody =~= Seq::empty());
        assert(r@.tr =~= Seq::empty());
        assert(r@.th =~= Seq::empty());
        assert(r@.td =~= Seq::empty());
        assert(r@.blockquote =~= Seq::empty());
        assert(r@.ol =~= Seq::empty());
        assert(r@.ul =~= Seq::empty());
        assert(r@.li =~= Seq::empty());
        assert(r@.dl =~= Seq::empty());
        assert(r@.dt =~= Seq::empty());
        assert(r@.dd =~= Seq::empty());
        assert(r@.a =~= Seq::empty());
        assert(r@.img =~= Seq::empty());
        assert(r@.em =~= Seq::empty());
        assert(r@.strong =~= Seq::empty());
        assert(r@.del =~= Seq::empty());
        assert(r@.sub =~= Seq::empty());
        assert(r@.sup =~= Seq::empty());
        assert(r@.codeblock =~= Seq::empty());
        r
    }
}

} // verus!
