//! Line lexing: splitting a line into whitespace-separated tokens, and
//! splitting a token on a separator byte such as the slash of a face triple.
use vstd::prelude::*;

verus! {

pub const SPACE: u8 = 0x20;
pub const TAB: u8 = 0x09;
pub const LINE_FEED: u8 = 0x0A;
pub const VERTICAL_TAB: u8 = 0x0B;
pub const FORM_FEED: u8 = 0x0C;
pub const CARRIAGE_RETURN: u8 = 0x0D;

/// ASCII whitespace, the separators an OBJ line uses between fields.
pub open spec fn is_space(b: u8) -> bool {
    b == SPACE || b == TAB || b == LINE_FEED || b == VERTICAL_TAB || b == FORM_FEED || b
        == CARRIAGE_RETURN
}

/// The whitespace-separated tokens of a line, in order; runs of whitespace
/// collapse and contribute no empty token.
pub open spec fn tokens_of(s: Seq<u8>) -> Seq<Seq<u8>>
    decreases s.len(),
{
    if s.len() == 0 {
        Seq::empty()
    } else if is_space(s[0]) {
        tokens_of(s.drop_first())
    } else {
        let rest = tokens_of(s.drop_first());
        if s.len() > 1 && !is_space(s[1]) {
            seq![seq![s[0]] + rest[0]] + rest.drop_first()
        } else {
            seq![seq![s[0]]] + rest
        }
    }
}

proof fn lemma_tokens_take_token(s: Seq<u8>, k: int)
    requires
        0 < k <= s.len(),
        forall|m: int| 0 <= m < k ==> !is_space(#[trigger] s[m]),
        k == s.len() || is_space(s[k]),
    ensures
        tokens_of(s) == seq![s.take(k)] + tokens_of(s.skip(k)),
    decreases k,
{
    if k == 1 {
        if s.len() == 1 {
            assert(tokens_of(s) == seq![seq![s[0]]] + tokens_of(s.drop_first()));
            assert(s.drop_first() =~= s.skip(1));
            assert(s.drop_first().len() == 0);
            assert(s.take(1) =~= seq![s[0]]);
        } else {
            assert(is_space(s[1]));
            assert(tokens_of(s) == seq![seq![s[0]]] + tokens_of(s.drop_first()));
            assert(s.drop_first() =~= s.skip(1));
            assert(s.take(1) =~= seq![s[0]]);
        }
    } else {
        let t = s.drop_first();
        assert(!is_space(s[1]));
        lemma_tokens_take_token(t, k - 1);
        assert(t.take(k - 1) =~= s.take(k).drop_first());
        assert(t.skip(k - 1) =~= s.skip(k));
        let rest = tokens_of(t);
        assert(rest == seq![t.take(k - 1)] + tokens_of(t.skip(k - 1)));
        assert(rest[0] == t.take(k - 1));
        assert(rest.drop_first() =~= tokens_of(t.skip(k - 1)));
        assert(seq![s[0]] + rest[0] =~= s.take(k));
        assert(tokens_of(s) == seq![seq![s[0]] + rest[0]] + rest.drop_first());
    }
}

proof fn lemma_vec_u8_deep_view(v: Vec<u8>)
    ensures
        v.deep_view() == v@,
{
    assert(v.deep_view() =~= v@);
}

proof fn lemma_deep_view_push(a: Vec<Vec<u8>>, b: Vec<Vec<u8>>, p: Vec<u8>)
    requires
        b@ == a@.push(p),
    ensures
        b.deep_view() == a.deep_view().push(p@),
{
    lemma_vec_u8_deep_view(p);
    assert forall|i: int| 0 <= i < b@.len() implies b.deep_view()[i] == a.deep_view().push(p@)[i]
    by {
        if i < a@.len() {
            assert(b@[i] == a@[i]);
        } else {
            assert(b@[i] == p);
        }
    }
    assert(b.deep_view() =~= a.deep_view().push(p@));
}

/// Splits a line into its whitespace-separated tokens, exactly as
/// `tokens_of` states.
pub fn tokenize(s: &[u8]) -> (r: Vec<Vec<u8>>)
    ensures
        r.deep_view() == tokens_of(s@),
{
    let mut out: Vec<Vec<u8>> = Vec::new();
    let mut i: usize = 0;
    proof {
        assert(out.deep_view() =~= Seq::<Seq<u8>>::empty());
        assert(s@.skip(0) =~= s@);
    }
    while i < s.len()
        invariant
            0 <= i <= s@.len(),
            tokens_of(s@) == out.deep_view() + tokens_of(s@.skip(i as int)),
        decreases s@.len() - i,
    {
        let b = s[i];
        if b == SPACE || b == TAB || b == LINE_FEED || b == VERTICAL_TAB || b == FORM_FEED || b
            == CARRIAGE_RETURN {
            proof {
                assert(s@.skip(i as int).drop_first() =~= s@.skip(i + 1));
                assert(s@.skip(i as int)[0] == s@[i as int]);
            }
            i = i + 1;
        } else {
            let mut j: usize = i + 1;
            while j < s.len() && !(s[j] == SPACE || s[j] == TAB || s[j] == LINE_FEED || s[j]
                == VERTICAL_TAB || s[j] == FORM_FEED || s[j] == CARRIAGE_RETURN)
                invariant
                    i < j <= s@.len(),
                    forall|m: int| i <= m < j ==> !is_space(#[trigger] s@[m]),
                decreases s@.len() - j,
            {
                j = j + 1;
            }
            let tok = vstd::slice::slice_to_vec(vstd::slice::slice_subrange(s, i, j));
            let ghost old_dv = out.deep_view();
            let ghost prev = out;
            let ghost tokv = tok;
            out.push(tok);
            proof {
                lemma_deep_view_push(prev, out, tokv);
                let u = s@.skip(i as int);
                lemma_tokens_take_token(u, j - i);
                assert(u.take(j - i) =~= s@.subrange(i as int, j as int));
                assert(u.skip(j - i) =~= s@.skip(j as int));
                assert(tokv@ == s@.subrange(i as int, j as int));
                assert(out.deep_view() + tokens_of(s@.skip(j as int)) =~= old_dv + tokens_of(
                    s@.skip(i as int),
                ));
            }
            i = j;
        }
    }
    proof {
        assert(s@.skip(i as int).len() == 0);
        assert(out.deep_view() + tokens_of(s@.skip(i as int)) =~= out.deep_view());
    }
    out
}

/// The fields of `s` split on the byte `sep`, as `str::split` counts them:
/// every separator ends a field, and empty fields are kept.
pub open spec fn split_on(s: Seq<u8>, sep: u8) -> Seq<Seq<u8>>
    decreases s.len(),
{
    if s.len() == 0 {
        seq![Seq::empty()]
    } else if s[0] == sep {
        seq![Seq::<u8>::empty()] + split_on(s.drop_first(), sep)
    } else {
        let rest = split_on(s.drop_first(), sep);
        seq![seq![s[0]] + rest[0]] + rest.drop_first()
    }
}

proof fn lemma_split_on_no_sep(s: Seq<u8>, sep: u8)
    requires
        forall|m: int| 0 <= m < s.len() ==> #[trigger] s[m] != sep,
    ensures
        split_on(s, sep) == seq![s],
    decreases s.len(),
{
    if s.len() == 0 {
        assert(s =~= Seq::<u8>::empty());
    } else {
        lemma_split_on_no_sep(s.drop_first(), sep);
        let rest = split_on(s.drop_first(), sep);
        assert(rest[0] == s.drop_first());
        assert(seq![s[0]] + rest[0] =~= s);
        assert(rest.drop_first() =~= Seq::<Seq<u8>>::empty());
        assert(seq![seq![s[0]] + rest[0]] + rest.drop_first() =~= seq![s]);
    }
}

proof fn lemma_split_on_first_sep(s: Seq<u8>, sep: u8, k: int)
    requires
        0 <= k < s.len(),
        s[k] == sep,
        forall|m: int| 0 <= m < k ==> #[trigger] s[m] != sep,
    ensures
        split_on(s, sep) == seq![s.take(k)] + split_on(s.skip(k + 1), sep),
    decreases k,
{
    if k == 0 {
        assert(s.drop_first() =~= s.skip(1));
        assert(s.take(0) =~= Seq::<u8>::empty());
    } else {
        let t = s.drop_first();
        lemma_split_on_first_sep(t, sep, k - 1);
        assert(t.take(k - 1) =~= s.take(k).drop_first());
        assert(t.skip(k) =~= s.skip(k + 1));
        let rest = split_on(t, sep);
        assert(rest == seq![t.take(k - 1)] + split_on(t.skip(k), sep));
        assert(rest[0] == t.take(k - 1));
        assert(rest.drop_first() =~= split_on(t.skip(k), sep));
        assert(seq![s[0]] + rest[0] =~= s.take(k));
        assert(split_on(s, sep) == seq![seq![s[0]] + rest[0]] + rest.drop_first());
    }
}

/// Splits `s` on the byte `sep`, exactly as `split_on` states.
pub fn split_parts(s: &[u8], sep: u8) -> (r: Vec<Vec<u8>>)
    ensures
        r.deep_view() == split_on(s@, sep),
{
    let mut out: Vec<Vec<u8>> = Vec::new();
    let mut start: usize = 0;
    let mut i: usize = 0;
    proof {
        assert(out.deep_view() =~= Seq::<Seq<u8>>::empty());
        assert(s@.skip(0) =~= s@);
    }
    while i < s.len()
        invariant
            0 <= start <= i <= s@.len(),
            forall|m: int| start <= m < i ==> #[trigger] s@[m] != sep,
            split_on(s@, sep) == out.deep_view() + split_on(s@.skip(start as int), sep),
        decreases s@.len() - i,
    {
        if s[i] == sep {
            let part = vstd::slice::slice_to_vec(vstd::slice::slice_subrange(s, start, i));
            let ghost old_dv = out.deep_view();
            let ghost prev = out;
            let ghost partv = part;
            out.push(part);
            proof {
                lemma_deep_view_push(prev, out, partv);
                let u = s@.skip(start as int);
                lemma_split_on_first_sep(u, sep, i - start);
                assert(u.take(i - start) =~= s@.subrange(start as int, i as int));
                assert(u.skip(i - start + 1) =~= s@.skip(i + 1));
                assert(partv@ == s@.subrange(start as int, i as int));
                assert(out.deep_view() + split_on(s@.skip(i + 1), sep) =~= old_dv + split_on(
                    u,
                    sep,
                ));
            }
            start = i + 1;
        }
        i = i + 1;
    }
    let last = vstd::slice::slice_to_vec(vstd::slice::slice_subrange(s, start, s.len()));
    let ghost old_dv = out.deep_view();
    let ghost prev = out;
    let ghost lastv = last;
    out.push(last);
    proof {
        lemma_deep_view_push(prev, out, lastv);
        let u = s@.skip(start as int);
        lemma_split_on_no_sep(u, sep);
        assert(lastv@ == u);
        assert(out.deep_view() =~= old_dv + split_on(u, sep));
    }
    out
}

} // verus!
