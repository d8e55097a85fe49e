use vstd::prelude::*;
use vstd::std_specs::iter::IteratorSpec;
use vstd::string::{axiom_spec_iter, next_postcondition};

verus! {

/// `a` comes before `b` in the lexicographic order of their characters: the
/// order of `String` itself, since UTF-8 keeps the order of code points.
pub open spec fn name_lt(a: Seq<char>, b: Seq<char>) -> bool
    decreases a.len(),
{
    if a.len() == 0 {
        b.len() > 0
    } else if b.len() == 0 {
        false
    } else if a[0] != b[0] {
        (a[0] as int) < (b[0] as int)
    } else {
        name_lt(a.drop_first(), b.drop_first())
    }
}

/// Of two distinct names, one comes first; never both.
pub proof fn lemma_name_lt_total(a: Seq<char>, b: Seq<char>)
    ensures
        a != b ==> (name_lt(a, b) || name_lt(b, a)),
        !(name_lt(a, b) && name_lt(b, a)),
        !name_lt(a, a),
    decreases a.len(),
{
    if a.len() > 0 && b.len() > 0 && a[0] == b[0] {
        lemma_name_lt_total(a.drop_first(), b.drop_first());
        if a != b {
            assert(a =~= seq![a[0]] + a.drop_first());
            assert(b =~= seq![b[0]] + b.drop_first());
        }
    }
    if a.len() > 0 {
        lemma_name_lt_total(a.drop_first(), a.drop_first());
    }
    if a.len() == 0 && b.len() == 0 {
        assert(a =~= b);
    }
}

/// Each entry of `s` comes before the next by name.
pub open spec fn sorted_by_name<T>(s: Seq<(String, T)>) -> bool {
    forall|q: int| 0 <= q < s.len() - 1 ==> name_lt((#[trigger] s[q]).0@, s[q + 1].0@)
}

/// Inserting `e` at `p`, between the names below and above it, keeps `o` sorted.
pub proof fn lemma_insert_sorted<T>(o: Seq<(String, T)>, p: int, e: (String, T))
    requires
        0 <= p <= o.len(),
        sorted_by_name(o),
        p > 0 ==> name_lt(o[p - 1].0@, e.0@),
        p < o.len() ==> name_lt(e.0@, o[p].0@),
    ensures
        sorted_by_name(o.insert(p, e)),
{
    let n = o.insert(p, e);
    assert forall|q: int| 0 <= q < n.len() - 1 implies name_lt((#[trigger] n[q]).0@, n[q + 1].0@) by {
        if q + 1 < p {
            assert(name_lt(o[q].0@, o[q + 1].0@));
        } else if q > p {
            assert(name_lt(o[q - 1].0@, o[q].0@));
        }
    }
}

/// The characters of `s`.
pub fn chars_of(s: &String) -> (r: Vec<char>)
    ensures
        r@ == s@,
{
    broadcast use axiom_spec_iter, next_postcondition;

    let mut it = s.as_str().chars();
    let mut r: Vec<char> = Vec::new();
    loop
        invariant
            r@ + it.remaining() == s@,
            it.obeys_prophetic_iter_laws(),
            it.decrease() is Some,
        decreases it.decrease()->0,
    {
        match it.next() {
            Some(c) => {
                proof {
                    assert(r@.push(c) + it.remaining() =~= s@);
                }
                r.push(c);
            },
            None => {
                proof {
                    assert(r@ =~= s@);
                }
                return r;
            },
        }
    }
}

/// Whether `a` comes before `b` by name.
pub fn name_less(a: &String, b: &String) -> (r: bool)
    ensures
        r == name_lt(a@, b@),
{
    let x = chars_of(a);
    let y = chars_of(b);
    let mut i: usize = 0;
    proof {
        assert(x@.subrange(0, x@.len() as int) =~= x@);
        assert(y@.subrange(0, y@.len() as int) =~= y@);
    }
    while i < x.len() && i < y.len()
        invariant
            x@ == a@,
            y@ == b@,
            i <= x@.len(),
            i <= y@.len(),
            name_lt(x@, y@) == name_lt(
                x@.subrange(i as int, x@.len() as int),
                y@.subrange(i as int, y@.len() as int),
            ),
        decreases x@.len() - i,
    {
        let ghost xs = x@.subrange(i as int, x@.len() as int);
        let ghost ys = y@.subrange(i as int, y@.len() as int);
        proof {
            assert(xs[0] == x@[i as int]);
            assert(ys[0] == y@[i as int]);
        }
        if x[i] != y[i] {
            proof {
                assert(xs.len() > 0 && ys.len() > 0);
                assert(name_lt(xs, ys) == ((xs[0] as int) < (ys[0] as int)));
            }
            return x[i] < y[i];
        }
        proof {
            assert(xs.drop_first() =~= x@.subrange(i + 1, x@.len() as int));
            assert(ys.drop_first() =~= y@.subrange(i + 1, y@.len() as int));
        }
        i = i + 1;
    }
    i < y.len()
}

/// Where `name` goes among the entries `o`: after every entry that does not
/// come after it, before the first that does.
pub fn insert_position<T>(o: &Vec<(String, T)>, name: &String) -> (p: usize)
    ensures
        p <= o@.len(),
        forall|q: int| 0 <= q < p ==> !name_lt(name@, (#[trigger] o@[q]).0@),
        p < o@.len() ==> name_lt(name@, o@[p as int].0@),
{
    let mut p: usize = 0;
    while p < o.len()
        invariant
            p <= o@.len(),
            forall|q: int| 0 <= q < p ==> !name_lt(name@, (#[trigger] o@[q]).0@),
        decreases o@.len() - p,
    {
        if name_less(name, &o[p].0) {
            return p;
        }
        p = p + 1;
    }
    p
}

} // verus!
