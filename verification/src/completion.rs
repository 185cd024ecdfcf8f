//! Completing a partly typed command name.

use crate::text::{chars_of, starts_with, string_of};
use vstd::prelude::*;

verus! {

/// Whether `a` and `b` agree before index `k` and `a` is the smaller one
/// there: either `a` ends at `k` and `b` goes on, or both go on and `a`
/// has the smaller character.
pub open spec fn less_at(a: Seq<char>, b: Seq<char>, k: int) -> bool {
    &&& 0 <= k <= a.len()
    &&& k <= b.len()
    &&& a.take(k) == b.take(k)
    &&& if k == a.len() {
        k < b.len()
    } else {
        k < b.len() && a[k] < b[k]
    }
}

/// Whether `a` comes before `b` in dictionary order, characters compared
/// by their code.
pub open spec fn lex_lt(a: Seq<char>, b: Seq<char>) -> bool {
    exists|k: int| less_at(a, b, k)
}

/// Whether each text comes before the next one. Such a sequence holds no
/// text twice.
pub open spec fn ascending(texts: Seq<Seq<char>>) -> bool {
    forall|i: int| 0 <= i < texts.len() - 1 ==> lex_lt(#[trigger] texts[i], texts[i + 1])
}

/// The names that the shell offers besides those of programs.
pub open spec fn known_commands() -> Seq<Seq<char>> {
    seq!["cd"@, "exit"@, "pwd"@, "echo"@, "export"@]
}

/// Whether `t` completes `partial`: it begins with it, and it is either
/// among `names` or one of the shell's own.
pub open spec fn is_completion(t: Seq<char>, partial: Seq<char>, names: Seq<Seq<char>>) -> bool {
    partial.is_prefix_of(t) && (names.contains(t) || known_commands().contains(t))
}

/// Whether `p` is a prefix of every text.
pub open spec fn is_common_prefix(p: Seq<char>, texts: Seq<Seq<char>>) -> bool {
    forall|i: int| 0 <= i < texts.len() ==> p.is_prefix_of(#[trigger] texts[i])
}

/// Whether `list` is the list of completions: in dictionary order, and
/// holding exactly the texts that complete `partial`.
pub open spec fn is_completion_list(
    list: Seq<Seq<char>>,
    partial: Seq<char>,
    names: Seq<Seq<char>>,
) -> bool {
    &&& ascending(list)
    &&& forall|t: Seq<char>| #[trigger] list.contains(t) <==> is_completion(t, partial, names)
}

/// The list of completions of `partial`. There is exactly one such list:
/// see [`lemma_completion_list_unique`].
pub open spec fn completions_spec(partial: Seq<char>, names: Seq<Seq<char>>) -> Seq<Seq<char>> {
    choose|list: Seq<Seq<char>>| is_completion_list(list, partial, names)
}

/// Whether `p` is a prefix of every text and no longer text is.
pub open spec fn is_longest_common_prefix(p: Seq<char>, texts: Seq<Seq<char>>) -> bool {
    &&& is_common_prefix(p, texts)
    &&& forall|q: Seq<char>| is_common_prefix(q, texts) ==> q.len() <= p.len()
}

/// The longest text that every one of `texts` begins with; the empty text
/// if there are none. With at least one text there is exactly one such
/// prefix: see [`lemma_longest_common_prefix_unique`].
pub open spec fn longest_common_prefix(texts: Seq<Seq<char>>) -> Seq<char> {
    if texts.len() == 0 {
        Seq::empty()
    } else {
        choose|p: Seq<char>| is_longest_common_prefix(p, texts)
    }
}

/// Dictionary order never holds both ways, nor of a text and itself.
pub proof fn lemma_lex_lt_asymmetric(a: Seq<char>, b: Seq<char>)
    requires
        lex_lt(a, b),
    ensures
        !lex_lt(b, a),
        a != b,
{
    let k = choose|k: int| less_at(a, b, k);
    if lex_lt(b, a) {
        let m = choose|m: int| less_at(b, a, m);
        if m < k {
            assert(a.take(k)[m] == b.take(k)[m]);
        } else if k < m {
            assert(b.take(m)[k] == a.take(m)[k]);
        }
    }
}

/// Dictionary order is transitive.
pub proof fn lemma_lex_lt_transitive(a: Seq<char>, b: Seq<char>, c: Seq<char>)
    requires
        lex_lt(a, b),
        lex_lt(b, c),
    ensures
        lex_lt(a, c),
{
    let k = choose|k: int| less_at(a, b, k);
    let m = choose|m: int| less_at(b, c, m);
    let n = if k <= m {
        k
    } else {
        m
    };
    assert(a.take(n) =~= c.take(n)) by {
        assert forall|i: int| 0 <= i < n implies a[i] == c[i] by {
            assert(a.take(k)[i] == b.take(k)[i]);
            assert(b.take(m)[i] == c.take(m)[i]);
        }
    }
    if k < m {
        assert(b.take(m)[k] == c.take(m)[k]);
    } else if m < k {
        assert(a.take(k)[m] == b.take(k)[m]);
    }
    assert(less_at(a, c, n));
}

/// In an ascending list every text comes before every later one.
pub proof fn lemma_ascending_pairs(texts: Seq<Seq<char>>, i: int, j: int)
    requires
        ascending(texts),
        0 <= i < j < texts.len(),
    ensures
        lex_lt(texts[i], texts[j]),
    decreases j - i,
{
    if i + 1 < j {
        lemma_ascending_pairs(texts, i, j - 1);
        assert(lex_lt(texts[j - 1], texts[j - 1 + 1]));
        lemma_lex_lt_transitive(texts[i], texts[j - 1], texts[j]);
    }
}

/// The texts after the first of an ascending list: they ascend, and they
/// are the texts of the list other than the first.
proof fn lemma_ascending_rest(x: Seq<Seq<char>>)
    requires
        ascending(x),
        x.len() > 0,
    ensures
        ascending(x.skip(1)),
        forall|t: Seq<char>| #[trigger] x.skip(1).contains(t) <==> x.contains(t) && t != x[0],
{
    let xs = x.skip(1);
    assert forall|k: int| 0 <= k < xs.len() - 1 implies lex_lt(#[trigger] xs[k], xs[k + 1]) by {
        assert(lex_lt(x[k + 1], x[k + 1 + 1]));
    }
    assert forall|t: Seq<char>| #[trigger] xs.contains(t) <==> x.contains(t) && t != x[0] by {
        if xs.contains(t) {
            let k = choose|k: int| 0 <= k < xs.len() && xs[k] == t;
            assert(x[k + 1] == t);
            lemma_ascending_pairs(x, 0, k + 1);
            lemma_lex_lt_asymmetric(x[0], t);
        }
        if x.contains(t) && t != x[0] {
            let m = choose|m: int| 0 <= m < x.len() && x[m] == t;
            assert(xs[m - 1] == t);
        }
    }
}

/// The first text of an ascending list comes before any other text of it.
proof fn lemma_first_is_least(x: Seq<Seq<char>>, t: Seq<char>)
    requires
        ascending(x),
        x.contains(t),
    ensures
        t == x[0] || lex_lt(x[0], t),
{
    let m = choose|m: int| 0 <= m < x.len() && x[m] == t;
    if m > 0 {
        lemma_ascending_pairs(x, 0, m);
    }
}

/// Two ascending lists that hold the same texts are the same list.
pub proof fn lemma_ascending_unique(x: Seq<Seq<char>>, y: Seq<Seq<char>>)
    requires
        ascending(x),
        ascending(y),
        forall|t: Seq<char>|
            #![trigger x.contains(t)]
            #![trigger y.contains(t)]
            x.contains(t) <==> y.contains(t),
    ensures
        x == y,
    decreases x.len(),
{
    if x.len() == 0 {
        if y.len() > 0 {
            assert(y[0] == y[0] && y.contains(y[0]));
            assert(x.contains(y[0]));
        }
        assert(x =~= y);
    } else if y.len() == 0 {
        assert(x[0] == x[0] && x.contains(x[0]));
        assert(y.contains(x[0]));
    } else {
        assert(x[0] == x[0] && x.contains(x[0]));
        assert(y[0] == y[0] && y.contains(y[0]));
        assert(y.contains(x[0]));
        assert(x.contains(y[0]));
        lemma_first_is_least(y, x[0]);
        lemma_first_is_least(x, y[0]);
        if x[0] != y[0] {
            lemma_lex_lt_asymmetric(x[0], y[0]);
        }
        let xs = x.skip(1);
        let ys = y.skip(1);
        lemma_ascending_rest(x);
        lemma_ascending_rest(y);
        assert forall|t: Seq<char>|
            #![trigger xs.contains(t)]
            #![trigger ys.contains(t)]
            xs.contains(t) <==> ys.contains(t) by {
            assert(xs.contains(t) <==> x.contains(t) && t != x[0]);
            assert(ys.contains(t) <==> y.contains(t) && t != y[0]);
        }
        lemma_ascending_unique(xs, ys);
        assert(x =~= seq![x[0]] + xs);
        assert(y =~= seq![y[0]] + ys);
    }
}

/// Of two texts one comes before the other, or they are the same.
pub proof fn lemma_lex_total(a: Seq<char>, b: Seq<char>)
    ensures
        lex_lt(a, b) || a == b || lex_lt(b, a),
{
    assert(a.take(0) =~= b.take(0));
    lemma_lex_total_from(a, b, 0);
}

proof fn lemma_lex_total_from(a: Seq<char>, b: Seq<char>, k: int)
    requires
        0 <= k <= a.len(),
        k <= b.len(),
        a.take(k) == b.take(k),
    ensures
        lex_lt(a, b) || a == b || lex_lt(b, a),
    decreases a.len() - k,
{
    if k == a.len() {
        if k == b.len() {
            assert(a.take(k) == a);
            assert(b.take(k) == b);
        } else {
            assert(less_at(a, b, k));
        }
    } else if k == b.len() {
        assert(less_at(b, a, k));
    } else if a[k] == b[k] {
        assert(a.take(k + 1) =~= a.take(k).push(a[k]));
        assert(b.take(k + 1) =~= b.take(k).push(b[k]));
        lemma_lex_total_from(a, b, k + 1);
    } else if a[k] < b[k] {
        assert(less_at(a, b, k));
    } else {
        assert(less_at(b, a, k));
    }
}

/// An ascending list with one more text in it, at its place.
proof fn lemma_insert_ascending(list: Seq<Seq<char>>, x: Seq<char>) -> (r: Seq<Seq<char>>)
    requires
        ascending(list),
    ensures
        ascending(r),
        forall|t: Seq<char>| #[trigger] r.contains(t) <==> list.contains(t) || t == x,
        r.len() > 0,
        r.last() == x || (list.len() > 0 && r.last() == list.last()),
    decreases list.len(),
{
    if list.len() == 0 {
        let r = seq![x];
        assert(r[0] == x);
        assert forall|t: Seq<char>| #[trigger] r.contains(t) <==> list.contains(t) || t == x by {
            if t == x {
                assert(r[0] == t);
            }
        }
        r
    } else if list.last() == x {
        assert(list[list.len() - 1] == x);
        list
    } else if lex_lt(list.last(), x) {
        let r = list.push(x);
        assert forall|i: int| 0 <= i < r.len() - 1 implies lex_lt(#[trigger] r[i], r[i + 1]) by {
            if i + 1 < list.len() {
                assert(lex_lt(list[i], list[i + 1]));
            }
        }
        assert forall|t: Seq<char>| #[trigger] r.contains(t) <==> list.contains(t) || t == x by {
            if r.contains(t) {
                let i = choose|i: int| 0 <= i < r.len() && r[i] == t;
                if i < list.len() {
                    assert(list[i] == t);
                }
            }
            if list.contains(t) {
                let i = choose|i: int| 0 <= i < list.len() && list[i] == t;
                assert(r[i] == t);
            }
            if t == x {
                assert(r[list.len() as int] == t);
            }
        }
        r
    } else {
        lemma_lex_total(list.last(), x);
        let front = list.drop_last();
        let last = list.last();
        assert(ascending(front)) by {
            assert forall|i: int| 0 <= i < front.len() - 1 implies lex_lt(
                #[trigger] front[i],
                front[i + 1],
            ) by {
                assert(lex_lt(list[i], list[i + 1]));
            }
        }
        let inner = lemma_insert_ascending(front, x);
        let r = inner.push(last);
        assert(lex_lt(inner.last(), last)) by {
            if inner.last() != x {
                assert(lex_lt(list[list.len() - 2], list[list.len() - 2 + 1]));
            }
        }
        assert forall|i: int| 0 <= i < r.len() - 1 implies lex_lt(#[trigger] r[i], r[i + 1]) by {
            if i + 1 < inner.len() {
                assert(lex_lt(inner[i], inner[i + 1]));
            }
        }
        assert forall|t: Seq<char>| #[trigger] r.contains(t) <==> list.contains(t) || t == x by {
            assert(inner.contains(t) <==> front.contains(t) || t == x);
            if r.contains(t) {
                let i = choose|i: int| 0 <= i < r.len() && r[i] == t;
                if i < inner.len() {
                    assert(inner[i] == t);
                    if front.contains(t) {
                        let j = choose|j: int| 0 <= j < front.len() && front[j] == t;
                        assert(list[j] == t);
                    }
                } else {
                    assert(list[list.len() - 1] == t);
                }
            }
            if list.contains(t) {
                let j = choose|j: int| 0 <= j < list.len() && list[j] == t;
                if j < front.len() {
                    assert(front[j] == t);
                    let i = choose|i: int| 0 <= i < inner.len() && inner[i] == t;
                    assert(r[i] == t);
                } else {
                    assert(r[inner.len() as int] == t);
                }
            }
            if t == x {
                let i = choose|i: int| 0 <= i < inner.len() && inner[i] == t;
                assert(r[i] == t);
            }
        }
        r
    }
}

/// An ascending list of the texts among `names` that begin with `partial`.
proof fn lemma_matching_names(partial: Seq<char>, names: Seq<Seq<char>>) -> (r: Seq<Seq<char>>)
    ensures
        ascending(r),
        forall|t: Seq<char>|
            #[trigger] r.contains(t) <==> partial.is_prefix_of(t) && names.contains(t),
    decreases names.len(),
{
    if names.len() == 0 {
        Seq::empty()
    } else {
        let front = names.drop_last();
        let before = lemma_matching_names(partial, front);
        let x = names.last();
        let r = if partial.is_prefix_of(x) {
            lemma_insert_ascending(before, x)
        } else {
            before
        };
        assert forall|t: Seq<char>|
            #[trigger] r.contains(t) <==> partial.is_prefix_of(t) && names.contains(t) by {
            assert(before.contains(t) <==> partial.is_prefix_of(t) && front.contains(t));
            if names.contains(t) {
                let j = choose|j: int| 0 <= j < names.len() && names[j] == t;
                if j < front.len() {
                    assert(front[j] == t);
                }
            }
            if front.contains(t) {
                let j = choose|j: int| 0 <= j < front.len() && front[j] == t;
                assert(names[j] == t);
            }
            if t == x {
                assert(names[names.len() - 1] == t);
            }
        }
        r
    }
}

/// Every part of a line and every list of names has its list of completions.
pub proof fn lemma_completion_list_exists(partial: Seq<char>, names: Seq<Seq<char>>)
    ensures
        is_completion_list(completions_spec(partial, names), partial, names),
{
    let all = names + known_commands();
    let list = lemma_matching_names(partial, all);
    assert forall|t: Seq<char>| #[trigger] list.contains(t) <==> is_completion(
        t,
        partial,
        names,
    ) by {
        assert(list.contains(t) <==> partial.is_prefix_of(t) && all.contains(t));
        if all.contains(t) {
            let j = choose|j: int| 0 <= j < all.len() && all[j] == t;
            if j < names.len() {
                assert(names[j] == t);
            } else {
                assert(known_commands()[j - names.len()] == t);
            }
        }
        if names.contains(t) {
            let j = choose|j: int| 0 <= j < names.len() && names[j] == t;
            assert(all[j] == t);
        }
        if known_commands().contains(t) {
            let j = choose|j: int| 0 <= j < known_commands().len() && known_commands()[j] == t;
            assert(all[names.len() + j] == t);
        }
    }
    assert(is_completion_list(list, partial, names));
}

proof fn lemma_longest_from(texts: Seq<Seq<char>>, k: int) -> (p: Seq<char>)
    requires
        texts.len() > 0,
        0 <= k <= texts[0].len(),
        is_common_prefix(texts[0].take(k), texts),
    ensures
        is_longest_common_prefix(p, texts),
    decreases texts[0].len() - k,
{
    let first = texts[0];
    if k < first.len() && is_common_prefix(first.take(k + 1), texts) {
        lemma_longest_from(texts, k + 1)
    } else {
        let p = first.take(k);
        assert forall|q: Seq<char>| is_common_prefix(q, texts) implies q.len() <= p.len() by {
            if q.len() > k {
                assert(q.is_prefix_of(texts[0]));
                let longer = first.take(k + 1);
                assert(longer =~= q.take(k + 1));
                assert forall|i: int| 0 <= i < texts.len() implies longer.is_prefix_of(
                    #[trigger] texts[i],
                ) by {
                    assert(q.is_prefix_of(texts[i]));
                }
            }
        }
        p
    }
}

/// One or more texts have a longest common prefix.
pub proof fn lemma_longest_common_prefix_exists(texts: Seq<Seq<char>>)
    requires
        texts.len() > 0,
    ensures
        is_longest_common_prefix(longest_common_prefix(texts), texts),
{
    assert forall|i: int| 0 <= i < texts.len() implies texts[0].take(0).is_prefix_of(
        #[trigger] texts[i],
    ) by {}
    let p = lemma_longest_from(texts, 0);
}

/// Any list of completions is the list of completions.
pub proof fn lemma_completion_list_unique(
    list: Seq<Seq<char>>,
    partial: Seq<char>,
    names: Seq<Seq<char>>,
)
    requires
        is_completion_list(list, partial, names),
    ensures
        list == completions_spec(partial, names),
{
    let chosen = completions_spec(partial, names);
    assert(is_completion_list(chosen, partial, names));
    assert forall|t: Seq<char>|
        #![trigger list.contains(t)]
        #![trigger chosen.contains(t)]
        list.contains(t) <==> chosen.contains(t) by {
        assert(list.contains(t) <==> is_completion(t, partial, names));
        assert(chosen.contains(t) <==> is_completion(t, partial, names));
    }
    lemma_ascending_unique(list, chosen);
}

/// Any longest common prefix of one or more texts is the longest common prefix.
pub proof fn lemma_longest_common_prefix_unique(p: Seq<char>, texts: Seq<Seq<char>>)
    requires
        texts.len() > 0,
        is_longest_common_prefix(p, texts),
    ensures
        p == longest_common_prefix(texts),
{
    let chosen = longest_common_prefix(texts);
    assert(is_longest_common_prefix(chosen, texts));
    assert(p.is_prefix_of(texts[0]));
    assert(chosen.is_prefix_of(texts[0]));
    assert(p.len() <= chosen.len());
    assert(chosen.len() <= p.len());
    assert(p =~= chosen);
}

/// The result of comparing two texts.
#[derive(Debug, Clone, Copy, PartialEq, Eq, Structural)]
pub enum Order {
    Before,
    Same,
    After,
}

/// Compares two texts in dictionary order.
pub fn text_order(a: &str, b: &str) -> (r: Order)
    ensures
        r == Order::Before <==> lex_lt(a@, b@),
        r == Order::Same <==> a@ == b@,
        r == Order::After <==> lex_lt(b@, a@),
{
    proof {
        if lex_lt(a@, b@) {
            lemma_lex_lt_asymmetric(a@, b@);
        }
        if lex_lt(b@, a@) {
            lemma_lex_lt_asymmetric(b@, a@);
        }
    }
    let x = chars_of(a);
    let y = chars_of(b);
    let mut i: usize = 0;
    while i < x.len() && i < y.len() && x[i] == y[i]
        invariant
            i <= x.len(),
            i <= y.len(),
            x@.take(i as int) == y@.take(i as int),
        decreases x.len() - i,
    {
        assert(x@.take(i + 1) =~= x@.take(i as int).push(x@[i as int]));
        assert(y@.take(i + 1) =~= y@.take(i as int).push(y@[i as int]));
        i += 1;
    }
    if i == x.len() {
        if i == y.len() {
            assert(x@.take(i as int) == x@);
            assert(y@.take(i as int) == y@);
            Order::Same
        } else {
            assert(less_at(a@, b@, i as int));
            Order::Before
        }
    } else if i == y.len() {
        assert(less_at(b@, a@, i as int));
        Order::After
    } else if x[i] < y[i] {
        assert(less_at(a@, b@, i as int));
        Order::Before
    } else {
        assert(less_at(b@, a@, i as int));
        Order::After
    }
}

/// Puts `x` into an ascending list at its place, unless it is there already.
fn insert_ascending(out: &mut Vec<String>, x: String)
    requires
        ascending(old(out).deep_view()),
    ensures
        ascending(final(out).deep_view()),
        forall|t: Seq<char>|
            #[trigger] final(out).deep_view().contains(t) <==> old(out).deep_view().contains(t)
                || t == x@,
{
    let ghost before = out.deep_view();
    let mut k: usize = 0;
    let mut placed = false;
    while k < out.len() && !placed
        invariant
            k <= out.len(),
            out.deep_view() == before,
            ascending(before),
            k > 0 ==> lex_lt(before[k - 1], x@),
            placed ==> k < out.len() && lex_lt(x@, before[k as int]),
        decreases out.len() - k, (if placed { 0int } else { 1int }),
    {
        match text_order(out[k].as_str(), x.as_str()) {
            Order::Before => {
                k += 1;
            },
            Order::Same => {
                assert(before[k as int] == x@);
                return ;
            },
            Order::After => {
                placed = true;
            },
        }
    }
    out.insert(k, x);
    let ghost after = out.deep_view();
    proof {
        assert(after.len() == before.len() + 1);
        assert(after[k as int] == x@);
        assert forall|i: int| 0 <= i < k implies after[i] == before[i] by {}
        assert forall|i: int| k < i < after.len() implies after[i] == before[i - 1] by {}
        assert forall|i: int| 0 <= i < after.len() - 1 implies lex_lt(
            #[trigger] after[i],
            after[i + 1],
        ) by {
            if i + 1 < k {
                assert(lex_lt(before[i], before[i + 1]));
            } else if i + 1 == k {
            } else if i == k {
            } else {
                assert(lex_lt(before[i - 1], before[i - 1 + 1]));
            }
        }
        assert forall|t: Seq<char>| #[trigger]
            after.contains(t) <==> before.contains(t) || t == x@ by {
            if after.contains(t) {
                let i = choose|i: int| 0 <= i < after.len() && after[i] == t;
                if i < k {
                    assert(before[i] == t);
                } else if i > k {
                    assert(before[i - 1] == t);
                }
            }
            if before.contains(t) {
                let i = choose|i: int| 0 <= i < before.len() && before[i] == t;
                if i < k {
                    assert(after[i] == t);
                } else {
                    assert(after[i + 1] == t);
                }
            }
            if t == x@ {
                assert(after[k as int] == t);
            }
        }
    }
}

/// Puts `name` into the list if it begins with `partial`.
fn offer(out: &mut Vec<String>, name: &str, partial: &str)
    requires
        ascending(old(out).deep_view()),
    ensures
        ascending(final(out).deep_view()),
        forall|t: Seq<char>|
            #[trigger] final(out).deep_view().contains(t) <==> old(out).deep_view().contains(t)
                || (t == name@ && partial@.is_prefix_of(t)),
{
    if starts_with(name, partial) {
        insert_ascending(out, String::from_str(name));
    }
}

/// The completions of `partial`: every name among `names` and the shell's
/// own that begins with it, in dictionary order, each once.
pub fn completions_of(partial: &str, names: &[String]) -> (r: Vec<String>)
    ensures
        r.deep_view() == completions_spec(partial@, names.deep_view()),
        is_completion_list(r.deep_view(), partial@, names.deep_view()),
{
    let mut out: Vec<String> = Vec::new();
    let mut i: usize = 0;
    while i < names.len()
        invariant
            i <= names.len(),
            ascending(out.deep_view()),
            forall|t: Seq<char>|
                #[trigger] out.deep_view().contains(t) <==> partial@.is_prefix_of(t)
                    && names.deep_view().take(i as int).contains(t),
        decreases names.len() - i,
    {
        let ghost before = out.deep_view();
        offer(&mut out, names[i].as_str(), partial);
        proof {
            let seen = names.deep_view().take(i as int);
            let next = names.deep_view().take(i + 1);
            assert(next =~= seen.push(names[i as int]@));
            assert forall|t: Seq<char>|
                #[trigger] out.deep_view().contains(t) <==> partial@.is_prefix_of(t)
                    && next.contains(t) by {
                assert(before.contains(t) <==> partial@.is_prefix_of(t) && seen.contains(t));
                if next.contains(t) {
                    let j = choose|j: int| 0 <= j < next.len() && next[j] == t;
                    if j < i {
                        assert(seen[j] == t);
                    }
                }
                if seen.contains(t) {
                    let j = choose|j: int| 0 <= j < seen.len() && seen[j] == t;
                    assert(next[j] == t);
                }
                if t == names[i as int]@ {
                    assert(next[i as int] == t);
                }
            }
        }
        i += 1;
    }
    assert(names.deep_view().take(names.len() as int) == names.deep_view());
    let ghost from_names = out.deep_view();
    offer(&mut out, "cd", partial);
    offer(&mut out, "exit", partial);
    offer(&mut out, "pwd", partial);
    offer(&mut out, "echo", partial);
    offer(&mut out, "export", partial);
    proof {
        let known = known_commands();
        assert(known[0] == "cd"@ && known[1] == "exit"@ && known[2] == "pwd"@ && known[3]
            == "echo"@ && known[4] == "export"@);
        assert forall|t: Seq<char>|
            known.contains(t) <==> (t == "cd"@ || t == "exit"@ || t == "pwd"@ || t == "echo"@
                || t == "export"@) by {}
        lemma_completion_list_unique(out.deep_view(), partial@, names.deep_view());
    }
    out
}

/// The longest text that every one of `completions` begins with; the
/// empty text if there are none.
pub fn common_prefix(completions: &[String]) -> (r: String)
    ensures
        r@ == longest_common_prefix(completions.deep_view()),
        completions.len() > 0 ==> is_longest_common_prefix(r@, completions.deep_view()),
{
    if completions.len() == 0 {
        return String::new();
    }
    let ghost texts = completions.deep_view();
    let first = chars_of(completions[0].as_str());
    assert(first@ == texts[0]);
    let mut prefix_len: usize = first.len();
    // The text that rules out any longer prefix, once there is one.
    let ghost mut blocker: int = 0;
    let mut i: usize = 1;
    assert(first@.take(first.len() as int) == first@);
    while i < completions.len()
        invariant
            1 <= i <= completions.len(),
            texts == completions.deep_view(),
            first@ == texts[0],
            prefix_len <= first.len(),
            forall|j: int| 0 <= j < i ==> first@.take(prefix_len as int).is_prefix_of(
                #[trigger] texts[j],
            ),
            prefix_len < first.len() ==> 0 <= blocker < i && !first@.take(
                prefix_len + 1,
            ).is_prefix_of(texts[blocker]),
        decreases completions.len() - i,
    {
        let other = chars_of(completions[i].as_str());
        assert(other@ == texts[i as int]);
        let mut matching: usize = 0;
        while matching < prefix_len && matching < other.len() && first[matching] == other[matching]
            invariant
                matching <= prefix_len <= first.len(),
                matching <= other.len(),
                first@.take(matching as int) == other@.take(matching as int),
            decreases prefix_len - matching,
        {
            assert(first@.take(matching + 1) =~= first@.take(matching as int).push(
                first@[matching as int],
            ));
            assert(other@.take(matching + 1) =~= other@.take(matching as int).push(
                other@[matching as int],
            ));
            matching += 1;
        }
        proof {
            let kept = first@.take(matching as int);
            assert(kept.is_prefix_of(other@));
            assert forall|j: int| 0 <= j < i implies kept.is_prefix_of(#[trigger] texts[j]) by {
                let wider = first@.take(prefix_len as int);
                assert(wider.is_prefix_of(texts[j]));
                assert(kept =~= wider.take(matching as int));
            }
            if matching < prefix_len {
                let longer = first@.take(matching + 1);
                if longer.is_prefix_of(other@) {
                    assert(longer[matching as int] == other@[matching as int]);
                }
                blocker = i as int;
            }
        }
        prefix_len = matching;
        i += 1;
    }
    let r = string_of(vstd::slice::slice_subrange(first.as_slice(), 0, prefix_len));
    proof {
        assert(r@ =~= first@.take(prefix_len as int));
        assert forall|q: Seq<char>| is_common_prefix(q, texts) implies q.len() <= r@.len() by {
            if q.len() > prefix_len {
                assert(q.is_prefix_of(texts[0]));
                assert(q.is_prefix_of(texts[blocker]));
                let longer = first@.take(prefix_len + 1);
                assert(longer =~= q.take(prefix_len + 1));
                assert(longer.is_prefix_of(texts[blocker]));
            }
        }
        lemma_longest_common_prefix_unique(r@, texts);
    }
    r
}

} // verus!
