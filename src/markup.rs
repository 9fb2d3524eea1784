//! The small text formats of notifications: message structures with
//! placeholders, and messages with inline `<style>` tags.
use vstd::prelude::*;
use crate::text::{chars_of, string_of};

verus! {

broadcast use vstd::std_specs::vec::group_vec_axioms;

/// The placeholder that `s` starts with, if any.
pub open spec fn placeholder_prefix(s: Seq<char>) -> Option<Seq<char>> {
    if s.len() >= 5 && s.take(5) == "{tag}"@ {
        Some("{tag}"@)
    } else if s.len() >= 7 && s.take(7) == "{scope}"@ {
        Some("{scope}"@)
    } else if s.len() >= 6 && s.take(6) == "{icon}"@ {
        Some("{icon}"@)
    } else if s.len() >= 5 && s.take(5) == "{msg}"@ {
        Some("{msg}"@)
    } else {
        None
    }
}

/// The pending literal text as a part, unless it is empty.
pub open spec fn flush(cur: Seq<char>) -> Seq<Seq<char>> {
    if cur.len() > 0 {
        seq![cur]
    } else {
        Seq::empty()
    }
}

/// The parts of `s`, with `cur` the literal text gathered before it: each
/// placeholder is a part, and so is each run of text between them.
pub open spec fn segments(s: Seq<char>, cur: Seq<char>) -> Seq<Seq<char>>
    decreases s.len(),
{
    if s.len() == 0 {
        flush(cur)
    } else {
        match placeholder_prefix(s) {
            Some(p) => if p.len() > 0 {
                flush(cur) + seq![p] + segments(s.skip(p.len() as int), Seq::empty())
            } else {
                Seq::empty()
            },
            None => segments(s.drop_first(), cur.push(s[0])),
        }
    }
}

/// Whether `p` occurs in `cs` at position `i`.
pub(crate) fn occurs_at(cs: &Vec<char>, i: usize, p: &Vec<char>) -> (r: bool)
    requires
        i <= cs@.len(),
    ensures
        r == (cs@.len() - i >= p@.len() && cs@.skip(i as int).take(p@.len() as int) == p@),
{
    let n = cs.len();
    if n - i < p.len() {
        return false;
    }
    let mut k: usize = 0;
    while k < p.len()
        invariant
            n == cs@.len(),
            k <= p@.len(),
            i <= cs@.len(),
            i + p@.len() <= cs@.len(),
            cs@.len() - i >= p@.len(),
            forall|m: int| 0 <= m < k ==> cs@[i + m] == p@[m],
        decreases p.len() - k,
    {
        if cs[i + k] != p[k] {
            proof {
                assert(cs@.skip(i as int).take(p@.len() as int)[k as int] != p@[k as int]);
            }
            return false;
        }
        k += 1;
    }
    proof {
        assert(cs@.skip(i as int).take(p@.len() as int) =~= p@);
    }
    true
}

/// Splits a message structure into its placeholders (`{tag}`, `{scope}`,
/// `{icon}`, `{msg}`) and the literal text between them, in order.
pub fn parse_structure(structure: &str) -> (r: Vec<String>)
    ensures
        r@.map_values(|s: String| s@) == segments(structure@, Seq::empty()),
{
    let cs = chars_of(structure);
    let phs: Vec<Vec<char>> = vec![
        chars_of("{tag}"),
        chars_of("{scope}"),
        chars_of("{icon}"),
        chars_of("{msg}"),
    ];
    let mut parts: Vec<String> = Vec::new();
    let mut cur: Vec<char> = Vec::new();
    let mut i: usize = 0;
    proof {
        assert(cs@.skip(0) =~= cs@);
        assert(parts@.map_values(|s: String| s@) =~= Seq::<Seq<char>>::empty());
    }
    while i < cs.len()
        invariant
            i <= cs@.len(),
            cs@ == structure@,
            phs@.len() == 4,
            phs@[0]@ == "{tag}"@,
            phs@[1]@ == "{scope}"@,
            phs@[2]@ == "{icon}"@,
            phs@[3]@ == "{msg}"@,
            parts@.map_values(|s: String| s@) + segments(cs@.skip(i as int), cur@) == segments(
                structure@,
                Seq::empty(),
            ),
        decreases cs.len() - i,
    {
        let ghost rest = cs@.skip(i as int);
        let mut found: Option<usize> = None;
        let mut k: usize = 0;
        while k < 4 && found.is_none()
            invariant
                k <= 4,
                i < cs@.len(),
                phs@.len() == 4,
                match found {
                    None => forall|m: int|
                        0 <= m < k ==> !(cs@.len() - i >= phs@[m]@.len() && cs@.skip(i as int).take(
                            phs@[m]@.len() as int,
                        ) == phs@[m]@),
                    Some(j) => j < 4 && cs@.len() - i >= phs@[j as int]@.len() && cs@.skip(
                        i as int,
                    ).take(phs@[j as int]@.len() as int) == phs@[j as int]@ && forall|m: int|
                        0 <= m < j ==> !(cs@.len() - i >= phs@[m]@.len() && cs@.skip(i as int).take(
                            phs@[m]@.len() as int,
                        ) == phs@[m]@),
                },
            decreases 4 - k,
        {
            if occurs_at(&cs, i, &phs[k]) {
                found = Some(k);
            }
            k += 1;
        }
        proof {
            reveal_strlit("{tag}");
            reveal_strlit("{scope}");
            reveal_strlit("{icon}");
            reveal_strlit("{msg}");
        }
        match found {
            Some(k) => {
                let ghost p = phs@[k as int]@;
                proof {
                    assert(placeholder_prefix(rest) == Some(p)) by {
                        if k > 0 {
                            assert(!(rest.len() >= 5 && rest.take(5) == "{tag}"@));
                        }
                        if k > 1 {
                            assert(!(rest.len() >= 7 && rest.take(7) == "{scope}"@));
                        }
                        if k > 2 {
                            assert(!(rest.len() >= 6 && rest.take(6) == "{icon}"@));
                        }
                    }
                    assert(rest.skip(p.len() as int) =~= cs@.skip(i + p.len()));
                }
                if cur.len() > 0 {
                    parts.push(string_of(&cur));
                }
                let ghost before = parts@.map_values(|s: String| s@);
                parts.push(string_of(&phs[k]));
                proof {
                    assert(parts@.map_values(|s: String| s@) =~= before.push(p));
                }
                cur = Vec::new();
                i = i + phs[k].len();
                proof {
                    assert(cur@ =~= Seq::<char>::empty());
                }
            },
            None => {
                proof {
                    assert(placeholder_prefix(rest) is None);
                    assert(rest.drop_first() =~= cs@.skip(i + 1));
                }
                cur.push(cs[i]);
                i = i + 1;
            },
        }
    }
    proof {
        assert(cs@.skip(i as int) =~= Seq::<char>::empty());
    }
    if cur.len() > 0 {
        parts.push(string_of(&cur));
    }
    proof {
        assert(parts@.map_values(|s: String| s@) =~= segments(structure@, Seq::empty()));
    }
    parts
}

/// Position of the first `>` in `s`, or -1.
pub open spec fn first_close(s: Seq<char>) -> int
    decreases s.len(),
{
    if s.len() == 0 {
        -1
    } else if s[0] == '>' {
        0
    } else {
        let r = first_close(s.drop_first());
        if r < 0 {
            -1
        } else {
            r + 1
        }
    }
}

proof fn lemma_first_close(s: Seq<char>, k: int)
    requires
        0 <= k <= s.len(),
        forall|m: int| 0 <= m < k ==> s[m] != '>',
    ensures
        k < s.len() && s[k] == '>' ==> first_close(s) == k,
        k == s.len() ==> first_close(s) == -1,
    decreases k,
{
    if k > 0 {
        lemma_first_close(s.drop_first(), k - 1);
    }
}

/// A message with its tags removed: each `<` up to the next `>` goes; a
/// `<` with no `>` after it, and all that follows, stays.
pub open spec fn stripped(s: Seq<char>) -> Seq<char>
    decreases s.len(),
{
    if s.len() == 0 {
        s
    } else if s[0] == '<' {
        let j = first_close(s);
        if 0 <= j < s.len() {
            stripped(s.skip(j + 1))
        } else {
            s
        }
    } else {
        seq![s[0]] + stripped(s.drop_first())
    }
}

/// A message with its inline style tags removed.
pub fn strip_tags(msg: &str) -> (r: String)
    ensures
        r@ == stripped(msg@),
{
    let cs = chars_of(msg);
    let n = cs.len();
    let mut out: Vec<char> = Vec::new();
    let mut i: usize = 0;
    proof {
        assert(cs@.skip(0) =~= cs@);
    }
    while i < n
        invariant
            n == cs@.len(),
            cs@ == msg@,
            i <= n,
            out@ + stripped(cs@.skip(i as int)) == stripped(msg@),
        decreases n - i,
    {
        let ghost rest = cs@.skip(i as int);
        if cs[i] == '<' {
            let mut j: usize = i + 1;
            while j < n && cs[j] != '>'
                invariant
                    n == cs@.len(),
                    i < j <= n,
                    cs@[i as int] == '<',
                    forall|m: int| i <= m < j ==> cs@[m] != '>',
                decreases n - j,
            {
                j += 1;
            }
            proof {
                assert forall|m: int| 0 <= m < j - i implies rest[m] != '>' by {
                    assert(rest[m] == cs@[i + m]);
                }
                lemma_first_close(rest, j - i);
            }
            if j < n {
                proof {
                    assert(rest.skip(j - i + 1) =~= cs@.skip(j + 1));
                }
                i = j + 1;
            } else {
                let ghost before = out@;
                let ghost s0 = i as int;
                while i < n
                    invariant
                        n == cs@.len(),
                        0 <= s0 <= i,
                        i <= n,
                        out@ == before + cs@.subrange(s0, i as int),
                    decreases n - i,
                {
                    let ghost o = out@;
                    let c = cs[i];
                    out.push(c);
                    proof {
                        assert(cs@.subrange(s0, i + 1) =~= cs@.subrange(s0, i as int).push(c));
                        assert(out@ =~= o.push(c));
                        assert(out@ =~= before + cs@.subrange(s0, i + 1));
                    }
                    i += 1;
                }
                proof {
                    assert(cs@.subrange(s0, n as int) =~= rest);
                    assert(cs@.skip(i as int) =~= Seq::<char>::empty());
                }
            }
        } else {
            out.push(cs[i]);
            proof {
                assert(rest.drop_first() =~= cs@.skip(i + 1));
                assert(out@ + stripped(cs@.skip(i + 1)) =~= out@.drop_last() + stripped(rest));
            }
            i += 1;
        }
    }
    proof {
        assert(cs@.skip(i as int) =~= Seq::<char>::empty());
        assert(out@ + stripped(cs@.skip(i as int)) =~= out@);
    }
    string_of(&out)
}

/// Whether `p` occurs in `s` at position `i`.
pub open spec fn occurs(s: Seq<char>, i: int, p: Seq<char>) -> bool {
    0 <= i && i + p.len() <= s.len() && s.subrange(i, i + p.len()) == p
}

/// Position of the first occurrence of `p` in `s`, or -1.
pub open spec fn find_seq(s: Seq<char>, p: Seq<char>) -> int
    decreases s.len(),
{
    if s.len() < p.len() {
        -1
    } else if s.take(p.len() as int) == p {
        0
    } else if s.len() == 0 {
        -1
    } else {
        let r = find_seq(s.drop_first(), p);
        if r < 0 {
            -1
        } else {
            r + 1
        }
    }
}

proof fn lemma_find_seq(s: Seq<char>, p: Seq<char>, k: int)
    requires
        0 <= k <= s.len(),
        forall|m: int| 0 <= m < k ==> !occurs(s, m, p),
    ensures
        occurs(s, k, p) ==> find_seq(s, p) == k,
        k + p.len() > s.len() ==> find_seq(s, p) == -1,
    decreases k,
{
    assert(s.take(p.len() as int) =~= s.subrange(0, p.len() as int)) by {
        if p.len() <= s.len() {
        }
    }
    if k > 0 {
        let t = s.drop_first();
        assert forall|m: int| 0 <= m < k - 1 implies !occurs(t, m, p) by {
            assert(!occurs(s, m + 1, p));
            if occurs(t, m, p) {
                assert(s.subrange(m + 1, m + 1 + p.len()) =~= t.subrange(m, m + p.len()));
            }
        }
        lemma_find_seq(t, p, k - 1);
        if occurs(s, k, p) {
            assert(s.subrange(k, k + p.len()) =~= t.subrange(k - 1, k - 1 + p.len()));
        }
        if p.len() <= s.len() {
            assert(!occurs(s, 0, p));
        }
    } else if p.len() > s.len() {
    } else if occurs(s, 0, p) {
    }
}

/// Position of the first occurrence of `p` in `cs` at or after `start`.
fn find_from(cs: &Vec<char>, start: usize, p: &Vec<char>) -> (r: Option<usize>)
    requires
        start <= cs@.len(),
    ensures
        match r {
            Some(k) => start <= k && k + p@.len() <= cs@.len() && find_seq(cs@.skip(start as int), p@)
                == k - start,
            None => find_seq(cs@.skip(start as int), p@) == -1,
        },
{
    let ghost s = cs@.skip(start as int);
    let n = cs.len();
    if p.len() == 0 {
        proof {
            assert(s.take(0) =~= p@);
        }
        return Some(start);
    }
    let mut k: usize = start;
    while k < n && !occurs_at(cs, k, p)
        invariant
            n == cs@.len(),
            start <= k <= n,
            s == cs@.skip(start as int),
            forall|m: int| 0 <= m < k - start ==> !occurs(s, m, p@),
        decreases n - k,
    {
        proof {
            if occurs(s, k - start, p@) {
                assert(cs@.skip(k as int).take(p@.len() as int) =~= s.subrange(
                    k - start,
                    k - start + p@.len(),
                ));
            }
        }
        k += 1;
    }
    if k < n {
        proof {
            assert(cs@.skip(k as int).take(p@.len() as int) =~= s.subrange(
                k - start,
                k - start + p@.len(),
            ));
            lemma_find_seq(s, p@, k - start);
        }
        Some(k)
    } else {
        proof {
            lemma_find_seq(s, p@, k - start);
        }
        None
    }
}

/// A run of message text, and the style that its tag names, if any.
#[derive(Debug, Clone, PartialEq, Eq)]
pub struct Span {
    pub text: String,
    pub style: Option<String>,
}

pub open spec fn span_view(s: Span) -> (Seq<char>, Option<Seq<char>>) {
    (
        s.text@,
        match s.style {
            Some(x) => Some(x@),
            None => None,
        },
    )
}

/// The spans of a message: `<name>text</name>` is `text` styled `name`;
/// a `<` that opens no such pair is plain text, as is everything else.
pub open spec fn markup(s: Seq<char>) -> Seq<(Seq<char>, Option<Seq<char>>)>
    decreases s.len(),
{
    if s.len() == 0 {
        Seq::empty()
    } else if s[0] != '<' {
        let j = find_seq(s, seq!['<']);
        let end = if 0 < j <= s.len() {
            j
        } else {
            s.len() as int
        };
        seq![(s.take(end), None)] + markup(s.skip(end))
    } else {
        let c = find_seq(s, seq!['>']);
        if 0 < c < s.len() {
            let name = s.subrange(1, c);
            let rest = s.skip(c + 1);
            let closing = seq!['<', '/'] + name + seq!['>'];
            let e = find_seq(rest, closing);
            if 0 <= e && e + closing.len() <= rest.len() {
                seq![(rest.take(e), Some(name))] + markup(rest.skip(e + closing.len()))
            } else {
                seq![(seq!['<'], None)] + markup(s.drop_first())
            }
        } else {
            seq![(seq!['<'], None)] + markup(s.drop_first())
        }
    }
}

fn slice_string(cs: &Vec<char>, from: usize, to: usize) -> (r: String)
    requires
        from <= to <= cs@.len(),
    ensures
        r@ == cs@.subrange(from as int, to as int),
{
    let mut out: Vec<char> = Vec::new();
    let mut i = from;
    while i < to
        invariant
            from <= i <= to,
            to <= cs@.len(),
            out@ == cs@.subrange(from as int, i as int),
        decreases to - i,
    {
        out.push(cs[i]);
        proof {
            assert(out@ =~= cs@.subrange(from as int, i + 1));
        }
        i += 1;
    }
    string_of(&out)
}

/// Splits a message into its plain and styled spans, in order.
pub fn parse_markup(msg: &str) -> (r: Vec<Span>)
    ensures
        r@.map_values(|x: Span| span_view(x)) == markup(msg@),
{
    let cs = chars_of(msg);
    let n = cs.len();
    let open = vec!['<'];
    let close = vec!['>'];
    let mut out: Vec<Span> = Vec::new();
    let mut i: usize = 0;
    proof {
        assert(cs@.skip(0) =~= cs@);
        assert(out@.map_values(|x: Span| span_view(x)) =~= Seq::<(Seq<char>, Option<Seq<char>>)>::empty());
    }
    while i < n
        invariant
            n == cs@.len(),
            cs@ == msg@,
            i <= n,
            open@ == seq!['<'],
            close@ == seq!['>'],
            out@.map_values(|x: Span| span_view(x)) + markup(cs@.skip(i as int)) == markup(msg@),
        decreases n - i,
    {
        let ghost rest = cs@.skip(i as int);
        let ghost before = out@.map_values(|x: Span| span_view(x));
        if cs[i] != '<' {
            let end = match find_from(&cs, i, &open) {
                Some(k) => k,
                None => n,
            };
            proof {
                if rest.take(1) == seq!['<'] {
                    assert(rest.take(1)[0] == '<');
                }
                let j = find_seq(rest, seq!['<']);
                assert(j != 0);
                assert(rest.take(end - i) =~= cs@.subrange(i as int, end as int));
                assert(rest.skip(end - i) =~= cs@.skip(end as int));
            }
            let text = slice_string(&cs, i, end);
            let span = Span { text, style: None };
            let ghost prev = out@;
            out.push(span);
            proof {
                assert(out@ =~= prev.push(span));
                assert(out@.map_values(|x: Span| span_view(x)) =~= before.push(span_view(span)));
            }
            i = end;
        } else {
            proof {
                assert(rest.drop_first() =~= cs@.skip(i + 1));
                assert(cs@.subrange(i as int, i + 1) =~= seq!['<']);
            }
            let plain = Span { text: slice_string(&cs, i, i + 1), style: None };
            match find_from(&cs, i, &close) {
                Some(c) => {
                    if c > i {
                        let mut closing = vec!['<', '/'];
                        let mut q = i + 1;
                        while q < c
                            invariant
                                i < q <= c,
                                c < n,
                                n == cs@.len(),
                                closing@ == seq!['<', '/'] + cs@.subrange(i + 1, q as int),
                            decreases c - q,
                        {
                            closing.push(cs[q]);
                            proof {
                                assert(closing@ =~= seq!['<', '/'] + cs@.subrange(i + 1, q + 1));
                            }
                            q += 1;
                        }
                        closing.push('>');
                        let ghost name = rest.subrange(1, c - i);
                        proof {
                            assert(name =~= cs@.subrange(i + 1, c as int));
                            assert(closing@ =~= seq!['<', '/'] + name + seq!['>']);
                            assert(rest.skip(c - i + 1) =~= cs@.skip(c + 1));
                        }
                        match find_from(&cs, c + 1, &closing) {
                            Some(e) => {
                                let cl = closing.len();
                                proof {
                                    let r2 = cs@.skip(c + 1);
                                    assert(r2.take(e - (c + 1)) =~= cs@.subrange(c + 1, e as int));
                                    assert(r2.skip(e - (c + 1) + cl) =~= cs@.skip(e + cl));
                                }
                                let text = slice_string(&cs, c + 1, e);
                                let style = slice_string(&cs, i + 1, c);
                                let span = Span { text, style: Some(style) };
                                let ghost prev = out@;
                                out.push(span);
                                proof {
                                    assert(out@ =~= prev.push(span));
                                    assert(out@.map_values(|x: Span| span_view(x)) =~= before.push(
                                        span_view(span),
                                    ));
                                }
                                i = e + cl;
                            },
                            None => {
                                let ghost prev = out@;
                                out.push(plain);
                                proof {
                                    assert(out@ =~= prev.push(plain));
                                    assert(out@.map_values(|x: Span| span_view(x)) =~= before.push(
                                        span_view(plain),
                                    ));
                                }
                                i = i + 1;
                            },
                        }
                    } else {
                        let ghost prev = out@;
                        out.push(plain);
                        proof {
                            assert(out@ =~= prev.push(plain));
                            assert(out@.map_values(|x: Span| span_view(x)) =~= before.push(
                                span_view(plain),
                            ));
                        }
                        i = i + 1;
                    }
                },
                None => {
                    let ghost prev = out@;
                    out.push(plain);
                    proof {
                        assert(out@ =~= prev.push(plain));
                        assert(out@.map_values(|x: Span| span_view(x)) =~= before.push(
                            span_view(plain),
                        ));
                    }
                    i = i + 1;
                },
            }
        }
    }
    proof {
        assert(cs@.skip(i as int) =~= Seq::<char>::empty());
        assert(out@.map_values(|x: Span| span_view(x)) + markup(cs@.skip(i as int)) =~= out@.map_values(
            |x: Span| span_view(x),
        ));
    }
    out
}

} // verus!
