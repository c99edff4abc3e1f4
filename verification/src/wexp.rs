//! The symbolic tree that carries WebAssembly text.
use vstd::prelude::*;
use vstd::string::StringExecFns;

verus! {

/// A parenthesised symbolic expression: a word, or an ordered list of trees.
#[derive(Debug, PartialEq)]
pub enum Wexp {
    List(Vec<Wexp>),
    Atom(String),
}

/// The mathematical value of a [`Wexp`].
pub enum WexpView {
    List(Seq<WexpView>),
    Atom(Seq<char>),
}

/// The values of a sequence of trees, in order.
pub open spec fn wexp_views(items: Seq<Wexp>) -> Seq<WexpView>
    decreases items,
{
    if items.len() == 0 {
        Seq::empty()
    } else {
        wexp_views(items.drop_last()).push(items.last()@)
    }
}

impl View for Wexp {
    type V = WexpView;

    open spec fn view(&self) -> WexpView
        decreases self,
    {
        match self {
            Wexp::List(items) => WexpView::List(wexp_views(items@)),
            Wexp::Atom(word) => WexpView::Atom(word@),
        }
    }
}

/// `wexp_views` keeps the length and maps each position to its value.
pub proof fn lemma_wexp_views(items: Seq<Wexp>)
    ensures
        wexp_views(items).len() == items.len(),
        forall|i: int| 0 <= i < items.len() ==> (#[trigger] wexp_views(items)[i]) == items[i]@,
    decreases items.len(),
{
    if items.len() > 0 {
        lemma_wexp_views(items.drop_last());
        assert(wexp_views(items) == wexp_views(items.drop_last()).push(items.last()@));
    } else {
        assert(wexp_views(items) == Seq::<WexpView>::empty());
    }
}

/// Tree values commute with appending a tree.
pub proof fn lemma_wexp_views_push(items: Seq<Wexp>, item: Wexp)
    ensures
        wexp_views(items.push(item)) == wexp_views(items).push(item@),
{
    assert(items.push(item).drop_last() =~= items);
}

/// Tree values commute with concatenation.
pub proof fn lemma_wexp_views_add(front: Seq<Wexp>, back: Seq<Wexp>)
    ensures
        wexp_views(front + back) == wexp_views(front) + wexp_views(back),
    decreases back.len(),
{
    if back.len() == 0 {
        assert(front + back =~= front);
        assert(wexp_views(back) =~= Seq::empty());
        assert(wexp_views(front) + wexp_views(back) =~= wexp_views(front));
    } else {
        lemma_wexp_views_add(front, back.drop_last());
        assert((front + back).drop_last() =~= front + back.drop_last());
        assert((front + back).last() == back.last());
        assert(wexp_views(back) == wexp_views(back.drop_last()).push(back.last()@));
        assert(wexp_views(front + back) == wexp_views((front + back).drop_last()).push(
            (front + back).last()@,
        ));
        assert(wexp_views(front + back) =~= wexp_views(front) + wexp_views(back));
    }
}

/// The atom that spells `word`.
pub open spec fn atom(word: &str) -> WexpView {
    WexpView::Atom(word@)
}

/// The canonical text of a tree: an atom is its word, a list is its
/// children's texts between parentheses, separated by single spaces.
pub open spec fn render(w: WexpView) -> Seq<char>
    decreases w,
{
    match w {
        WexpView::Atom(word) => word,
        WexpView::List(items) => seq!['('] + render_items(items) + seq![')'],
    }
}

/// The texts of `items`, with one space between neighbours.
pub open spec fn render_items(items: Seq<WexpView>) -> Seq<char>
    decreases items,
{
    if items.len() == 0 {
        Seq::empty()
    } else if items.len() == 1 {
        render(items[0])
    } else {
        render_items(items.drop_last()) + seq![' '] + render(items.last())
    }
}

/// The characters that give a rendering its shape.
pub open spec fn is_delimiter(c: char) -> bool {
    c == ' ' || c == '(' || c == ')'
}

/// A word that cannot be mistaken for structure: it is not empty and
/// holds no space and no parenthesis.
pub open spec fn plain_word(word: Seq<char>) -> bool {
    &&& word.len() > 0
    &&& forall|i: int| 0 <= i < word.len() ==> !is_delimiter(#[trigger] word[i])
}

/// Every atom of the tree is a plain word.
pub open spec fn plain(w: WexpView) -> bool
    decreases w,
{
    match w {
        WexpView::Atom(word) => plain_word(word),
        WexpView::List(items) => forall|i: int| 0 <= i < items.len() ==> plain(#[trigger] items[i]),
    }
}

/// Text that can follow a tree inside a list: nothing, or something that
/// starts with a space or a closing parenthesis.
pub open spec fn closed_off(rest: Seq<char>) -> bool {
    rest.len() == 0 || rest[0] == ' ' || rest[0] == ')'
}

/// What follows the first of `items` in their common text: nothing, or a
/// space and the other items.
pub open spec fn after_first(items: Seq<WexpView>) -> Seq<char> {
    if items.len() <= 1 {
        Seq::empty()
    } else {
        seq![' '] + render_items(items.drop_first())
    }
}

/// The text of a list of items, read from the left: the first item, then
/// the others.
pub proof fn lemma_render_items_first(items: Seq<WexpView>)
    requires
        items.len() > 0,
    ensures
        render_items(items) == render(items[0]) + after_first(items),
    decreases items.len(),
{
    if items.len() == 1 {
        assert(render(items[0]) + Seq::<char>::empty() =~= render(items[0]));
    } else {
        let front = items.drop_last();
        let back = items.drop_first();
        lemma_render_items_first(front);
        assert(back.last() == items.last());
        if items.len() == 2 {
            assert(front.len() == 1);
            assert(back.len() == 1);
            assert(back[0] == items.last());
            assert(render_items(front) == render(items[0]));
            assert(render_items(back) == render(items.last()));
            assert(render_items(items) =~= render(items[0]) + after_first(items));
        } else {
            assert(back.drop_last() =~= front.drop_first());
            assert(render_items(back) == render_items(back.drop_last()) + seq![' '] + render(
                items.last(),
            ));
            assert(after_first(front) == seq![' '] + render_items(front.drop_first()));
            assert(render_items(items) =~= render(items[0]) + after_first(items));
        }
    }
}

/// The text of a plain tree starts with neither a space nor a closing
/// parenthesis.
pub proof fn lemma_render_start(w: WexpView)
    requires
        plain(w),
    ensures
        render(w).len() > 0,
        render(w)[0] != ' ',
        render(w)[0] != ')',
        w is List <==> render(w)[0] == '(',
{
    match w {
        WexpView::Atom(word) => {
            assert(!is_delimiter(word[0]));
        },
        WexpView::List(items) => {},
    }
}

/// Two texts that agree after heads of one length have equal heads and
/// equal tails.
pub proof fn lemma_split_at_same_length(p: Seq<char>, x: Seq<char>, q: Seq<char>, y: Seq<char>)
    requires
        p + x == q + y,
        p.len() == q.len(),
    ensures
        p == q,
        x == y,
{
    assert(p =~= (p + x).subrange(0, p.len() as int));
    assert(q =~= (q + y).subrange(0, q.len() as int));
    assert(x =~= (p + x).subrange(p.len() as int, (p + x).len() as int));
    assert(y =~= (q + y).subrange(q.len() as int, (q + y).len() as int));
}

/// A plain tree can be read back from the front of a text: if the texts of
/// two plain trees, each followed by text that is closed off, are equal,
/// then the trees are equal and so is what follows them.
pub proof fn lemma_render_prefix(a: WexpView, x: Seq<char>, b: WexpView, y: Seq<char>)
    requires
        plain(a),
        plain(b),
        closed_off(x),
        closed_off(y),
        render(a) + x == render(b) + y,
    ensures
        a == b,
        x == y,
    decreases a,
{
    lemma_render_start(a);
    lemma_render_start(b);
    let left = render(a) + x;
    let right = render(b) + y;
    assert(left[0] == render(a)[0]);
    assert(right[0] == render(b)[0]);
    match (a, b) {
        (WexpView::Atom(w), WexpView::Atom(v)) => {
            if w.len() < v.len() {
                assert(left[w.len() as int] == x[0]);
                assert(right[w.len() as int] == v[w.len() as int]);
                assert(!is_delimiter(v[w.len() as int]));
                assert(false);
            }
            if v.len() < w.len() {
                assert(right[v.len() as int] == y[0]);
                assert(left[v.len() as int] == w[v.len() as int]);
                assert(!is_delimiter(w[v.len() as int]));
                assert(false);
            }
            lemma_split_at_same_length(w, x, v, y);
        },
        (WexpView::List(p), WexpView::List(q)) => {
            let close = seq![')'];
            let open = seq!['('];
            assert(left =~= open + (render_items(p) + close + x));
            assert(right =~= open + (render_items(q) + close + y));
            lemma_split_at_same_length(
                open,
                render_items(p) + close + x,
                open,
                render_items(q) + close + y,
            );
            lemma_render_items_prefix(p, x, q, y);
        },
        _ => {
            assert(false);
        },
    }
}

/// The items of a list can be read back from the front of a text: if the
/// texts of two lists of plain trees, each followed by the closing
/// parenthesis and more text, are equal, then the lists are equal and so
/// is what follows them.
pub proof fn lemma_render_items_prefix(p: Seq<WexpView>, x: Seq<char>, q: Seq<WexpView>, y: Seq<char>)
    requires
        forall|i: int| 0 <= i < p.len() ==> plain(#[trigger] p[i]),
        forall|i: int| 0 <= i < q.len() ==> plain(#[trigger] q[i]),
        render_items(p) + seq![')'] + x == render_items(q) + seq![')'] + y,
    ensures
        p == q,
        x == y,
    decreases p,
{
    let close = seq![')'];
    let left = render_items(p) + close + x;
    let right = render_items(q) + close + y;
    if p.len() > 0 {
        lemma_render_items_first(p);
        lemma_render_start(p[0]);
        assert(left[0] == render(p[0])[0]);
    } else {
        assert(left[0] == ')');
    }
    if q.len() > 0 {
        lemma_render_items_first(q);
        lemma_render_start(q[0]);
        assert(right[0] == render(q[0])[0]);
    } else {
        assert(right[0] == ')');
    }
    if p.len() == 0 {
        assert(q.len() == 0);
        assert(p =~= q);
        assert(left =~= close + x);
        assert(right =~= close + y);
        lemma_split_at_same_length(close, x, close, y);
    } else {
        assert(q.len() > 0);
        let after_p = after_first(p) + close + x;
        let after_q = after_first(q) + close + y;
        assert(left =~= render(p[0]) + after_p);
        assert(right =~= render(q[0]) + after_q);
        assert(after_p[0] == if p.len() == 1 {
            ')'
        } else {
            ' '
        });
        assert(after_q[0] == if q.len() == 1 {
            ')'
        } else {
            ' '
        });
        lemma_render_prefix(p[0], after_p, q[0], after_q);
        if p.len() == 1 {
            assert(q.len() == 1);
            assert(p =~= q);
            assert(after_p =~= close + x);
            assert(after_q =~= close + y);
            lemma_split_at_same_length(close, x, close, y);
        } else {
            assert(q.len() > 1);
            let space = seq![' '];
            let rest_p = p.drop_first();
            let rest_q = q.drop_first();
            assert(after_p =~= space + (render_items(rest_p) + close + x));
            assert(after_q =~= space + (render_items(rest_q) + close + y));
            lemma_split_at_same_length(
                space,
                render_items(rest_p) + close + x,
                space,
                render_items(rest_q) + close + y,
            );
            assert forall|i: int| 0 <= i < rest_p.len() implies plain(#[trigger] rest_p[i]) by {
                assert(rest_p[i] == p[i + 1]);
            }
            assert forall|i: int| 0 <= i < rest_q.len() implies plain(#[trigger] rest_q[i]) by {
                assert(rest_q[i] == q[i + 1]);
            }
            lemma_render_items_prefix(rest_p, x, rest_q, y);
            assert(p =~= seq![p[0]] + rest_p);
            assert(q =~= seq![q[0]] + rest_q);
        }
    }
}

/// Rendering tells plain trees apart: two trees whose atoms are plain
/// words and whose texts are equal are the same tree.
pub proof fn lemma_render_injective(a: WexpView, b: WexpView)
    requires
        plain(a),
        plain(b),
        render(a) == render(b),
    ensures
        a == b,
{
    assert(render(a) + Seq::<char>::empty() =~= render(a));
    assert(render(b) + Seq::<char>::empty() =~= render(b));
    lemma_render_prefix(a, Seq::empty(), b, Seq::empty());
}

impl Wexp {
    /// The atom that spells `word`.
    pub fn atom(word: &str) -> (w: Wexp)
        ensures
            w@ == atom(word),
    {
        Wexp::Atom(word.to_owned())
    }

    /// Appends the canonical text of this tree to `out`.
    pub fn render_into(&self, out: &mut String)
        ensures
            final(out)@ == old(out)@ + render(self@),
        decreases self,
    {
        match self {
            Wexp::Atom(word) => {
                out.append(word.as_str());
            },
            Wexp::List(items) => {
                proof {
                    reveal_strlit("(");
                    reveal_strlit(" ");
                    reveal_strlit(")");
                    lemma_wexp_views(items@);
                }
                out.append("(");
                let ghost opened = out@;
                let ghost views = wexp_views(items@);
                let mut i: usize = 0;
                while i < items.len()
                    invariant
                        i <= items.len(),
                        views == wexp_views(items@),
                        views.len() == items.len(),
                        forall|j: int| 0 <= j < items.len() ==> (#[trigger] views[j]) == items[j]@,
                        forall|j: int| 0 <= j < items.len() ==> decreases_to!(self => #[trigger] items[j]),
                        " "@ == seq![' '],
                        out@ == opened + render_items(views.take(i as int)),
                    decreases items.len() - i,
                {
                    if i > 0 {
                        out.append(" ");
                    }
                    items[i].render_into(out);
                    proof {
                        assert(views.take(i as int + 1).drop_last() =~= views.take(i as int));
                        assert(views.take(i as int + 1).last() == views[i as int]);
                    }
                    i += 1;
                }
                out.append(")");
                proof {
                    assert(views.take(items.len() as int) =~= views);
                    assert(out@ =~= old(out)@ + render(self@));
                }
            },
        }
    }

    /// The canonical text of this tree.
    pub fn to_string(&self) -> (text: String)
        ensures
            text@ == render(self@),
    {
        let mut text = String::new();
        self.render_into(&mut text);
        text
    }
}

} // verus!
