//! Configuration documents: an untyped tree of tables, arrays and scalars,
//! with the deep merge that layers one document over another.
use vstd::prelude::*;

verus! {

broadcast use vstd::std_specs::vec::group_vec_axioms;

/// A configuration document as read from one structured text file.
///
/// A table is an ordered list of entries whose keys are pairwise distinct
/// (see `Doc::wf`). Values that the configuration never interprets
/// (floating-point numbers, dates) are kept as their text in `Other`.
#[derive(Debug)]
pub enum Document {
    Table(Vec<(String, Document)>),
    Array(Vec<Document>),
    Str(String),
    Int(i64),
    Bool(bool),
    Other(String),
}

/// The mathematical model of a `Document`.
pub ghost enum Doc {
    Table(Seq<(Seq<char>, Doc)>),
    Array(Seq<Doc>),
    Str(Seq<char>),
    Int(int),
    Bool(bool),
    Other(Seq<char>),
}

impl Document {
    pub open spec fn view(&self) -> Doc
        decreases *self, 0int,
    {
        match *self {
            Document::Table(es) => Doc::Table(entries_view(es@)),
            Document::Array(xs) => Doc::Array(items_view(xs@)),
            Document::Str(s) => Doc::Str(s@),
            Document::Int(i) => Doc::Int(i as int),
            Document::Bool(b) => Doc::Bool(b),
            Document::Other(s) => Doc::Other(s@),
        }
    }
}

/// The model of a table's entries, entry by entry.
pub open spec fn entries_view(es: Seq<(String, Document)>) -> Seq<(Seq<char>, Doc)>
    decreases es, 1int,
{
    if es.len() == 0 {
        Seq::empty()
    } else {
        entries_view(es.drop_last()).push((es.last().0@, es.last().1.view()))
    }
}

/// The model of an array's items, item by item.
pub open spec fn items_view(xs: Seq<Document>) -> Seq<Doc>
    decreases xs, 1int,
{
    if xs.len() == 0 {
        Seq::empty()
    } else {
        items_view(xs.drop_last()).push(xs.last().view())
    }
}


/// Position of the first entry whose key is `k`, or -1 when there is none.
pub open spec fn key_index(es: Seq<(Seq<char>, Doc)>, k: Seq<char>) -> int
    decreases es.len(),
{
    if es.len() == 0 {
        -1
    } else {
        let r = key_index(es.drop_last(), k);
        if r >= 0 {
            r
        } else if es.last().0 == k {
            es.len() - 1
        } else {
            -1
        }
    }
}

/// The value stored under `k` in a table's entries.
pub open spec fn lookup(es: Seq<(Seq<char>, Doc)>, k: Seq<char>) -> Option<Doc> {
    let i = key_index(es, k);
    if i >= 0 {
        Some(es[i].1)
    } else {
        None
    }
}

/// No two entries share a key.
pub open spec fn keys_unique(es: Seq<(Seq<char>, Doc)>) -> bool {
    forall|i: int, j: int| 0 <= i < j < es.len() ==> es[i].0 != es[j].0
}

impl Doc {
    /// Every table in the tree has pairwise distinct keys.
    pub open spec fn wf(self) -> bool
        decreases self,
    {
        match self {
            Doc::Table(es) => keys_unique(es) && forall|i: int|
                0 <= i < es.len() ==> (#[trigger] es[i]).1.wf(),
            Doc::Array(xs) => forall|i: int| 0 <= i < xs.len() ==> (#[trigger] xs[i]).wf(),
            _ => true,
        }
    }
}

/// Deep merge of `s` over `t`: two tables merge key by key, keeping the
/// union of their keys; any other pair is replaced wholesale by `s`.
pub open spec fn merge(t: Doc, s: Doc) -> Doc
    decreases s, 0int,
{
    if t is Table && s is Table {
        Doc::Table(merge_entries(t->Table_0, s->Table_0))
    } else {
        s
    }
}

/// The entries of `se` merged, in order, into the entries `te`: an entry
/// whose key is present merges into that entry's value, a new key is
/// appended.
pub open spec fn merge_entries(te: Seq<(Seq<char>, Doc)>, se: Seq<(Seq<char>, Doc)>) -> Seq<
    (Seq<char>, Doc),
>
    decreases se, 1int,
{
    if se.len() == 0 {
        te
    } else {
        let acc = merge_entries(te, se.drop_last());
        let k = se.last().0;
        let i = key_index(acc, k);
        if i >= 0 {
            acc.update(i, (k, merge(acc[i].1, se.last().1)))
        } else {
            acc.push(se.last())
        }
    }
}

pub proof fn lemma_entries_view(es: Seq<(String, Document)>)
    ensures
        entries_view(es).len() == es.len(),
        forall|i: int|
            0 <= i < es.len() ==> #[trigger] entries_view(es)[i] == (es[i].0@, es[i].1@),
    decreases es.len(),
{
    if es.len() > 0 {
        lemma_entries_view(es.drop_last());
    }
}

pub proof fn lemma_items_view(xs: Seq<Document>)
    ensures
        items_view(xs).len() == xs.len(),
        forall|i: int| 0 <= i < xs.len() ==> #[trigger] items_view(xs)[i] == xs[i]@,
    decreases xs.len(),
{
    if xs.len() > 0 {
        lemma_items_view(xs.drop_last());
    }
}

/// `key_index` finds the first entry with the key.
pub proof fn lemma_key_index(es: Seq<(Seq<char>, Doc)>, k: Seq<char>)
    ensures
        -1 <= key_index(es, k) < es.len(),
        key_index(es, k) >= 0 ==> es[key_index(es, k)].0 == k,
        forall|j: int|
            0 <= j < es.len() && (key_index(es, k) < 0 || j < key_index(es, k)) ==> (#[trigger] es[j]).0
                != k,
    decreases es.len(),
{
    if es.len() > 0 {
        lemma_key_index(es.drop_last(), k);
        assert forall|j: int|
            0 <= j < es.len() - 1 implies #[trigger] es[j] == es.drop_last()[j] by {}
    }
}

/// `key_index` reads the keys alone.
pub proof fn lemma_key_index_keys(a: Seq<(Seq<char>, Doc)>, b: Seq<(Seq<char>, Doc)>, k: Seq<char>)
    requires
        a.len() == b.len(),
        forall|i: int| 0 <= i < a.len() ==> (#[trigger] a[i]).0 == b[i].0,
    ensures
        key_index(a, k) == key_index(b, k),
{
    lemma_key_index(a, k);
    lemma_key_index(b, k);
    let ia = key_index(a, k);
    let ib = key_index(b, k);
    if ia >= 0 && ib >= 0 {
        assert(!(ia < ib) && !(ib < ia)) by {
            if ia < ib {
                assert(b[ia].0 != k);
            }
            if ib < ia {
                assert(a[ib].0 != k);
            }
        }
    } else if ia >= 0 {
        assert(b[ia].0 != k);
    } else if ib >= 0 {
        assert(a[ib].0 != k);
    }
}

/// Position of the first entry of `es` whose key is `k`.
fn find_entry(es: &Vec<(String, Document)>, k: &String) -> (r: Option<usize>)
    ensures
        match r {
            Some(i) => i as int == key_index(entries_view(es@), k@),
            None => key_index(entries_view(es@), k@) < 0,
        },
{
    proof {
        lemma_entries_view(es@);
        lemma_key_index(entries_view(es@), k@);
    }
    let mut i: usize = 0;
    while i < es.len()
        invariant
            i <= es.len(),
            forall|j: int| 0 <= j < i ==> (#[trigger] es@[j]).0@ != k@,
        decreases es.len() - i,
    {
        if es[i].0 == *k {
            proof {
                lemma_entries_view(es@);
                lemma_key_index(entries_view(es@), k@);
                let ki = key_index(entries_view(es@), k@);
                if ki < 0 || (i as int) < ki {
                    assert(entries_view(es@)[i as int].0 != k@);
                }
                if 0 <= ki < i {
                    assert(es@[ki].0@ != k@);
                }
            }
            return Some(i);
        }
        i += 1;
    }
    proof {
        lemma_entries_view(es@);
        lemma_key_index(entries_view(es@), k@);
        let ki = key_index(entries_view(es@), k@);
        if ki >= 0 {
            assert(es@[ki].0@ != k@);
        }
    }
    None
}

/// Deep merge of `source` over `target`, as values.
pub fn merged(target: Document, source: Document) -> (r: Document)
    ensures
        r@ == merge(target@, source@),
    decreases source, 0int,
{
    match source {
        Document::Table(se) => match target {
            Document::Table(te) => Document::Table(merge_table(te, se)),
            _ => Document::Table(se),
        },
        _ => source,
    }
}

/// Deep merge of `source` over `target`, in place.
pub fn deep_merge(target: &mut Document, source: Document)
    ensures
        final(target)@ == merge(old(target)@, source@),
{
    let mut t = Document::Bool(false);
    std::mem::swap(target, &mut t);
    *target = merged(t, source);
}

fn merge_table(te: Vec<(String, Document)>, se: Vec<(String, Document)>) -> (r: Vec<
    (String, Document),
>)
    ensures
        entries_view(r@) == merge_entries(entries_view(te@), entries_view(se@)),
    decreases se, 1int,
{
    let ghost se0 = se@;
    let ghost se_vec = se;
    let ghost tv = entries_view(te@);
    let ghost sv = entries_view(se@);
    proof {
        lemma_entries_view(se0);
        assert(entries_view(se0).take(0) =~= Seq::<(Seq<char>, Doc)>::empty());
    }
    let mut acc = te;
    let mut rest = se;
    let ghost mut n: int = 0;
    while rest.len() > 0
        invariant
            0 <= n <= se0.len(),
            sv == entries_view(se0),
            se_vec@ == se0,
            se_vec == se,
            sv.len() == se0.len(),
            forall|i: int| 0 <= i < se0.len() ==> #[trigger] sv[i] == (se0[i].0@, se0[i].1@),
            rest@ == se0.skip(n),
            entries_view(acc@) == merge_entries(tv, sv.take(n)),
        decreases rest.len(),
    {
        let (k, v) = rest.remove(0);
        proof {
            assert(se0[n] == (k, v));
            assert(sv.take(n + 1).drop_last() =~= sv.take(n));
            assert(sv.take(n + 1).last() == (k@, v@));
            lemma_entries_view(acc@);
            assert(decreases_to!(se_vec => se_vec[n]));
            assert(decreases_to!(se_vec[n] => se_vec[n].1));
            assert(decreases_to!(se_vec => v));
            lemma_key_index(entries_view(acc@), k@);
        }
        let found = find_entry(&acc, &k);
        match found {
            Some(i) => {
                let (k0, old) = acc.remove(i);
                let m = merged(old, v);
                acc.insert(i, (k, m));
                proof {
                    lemma_entries_view(acc@);
                }
            },
            None => {
                acc.push((k, v));
                proof {
                    lemma_entries_view(acc@);
                }
            },
        }
        proof {
            n = n + 1;
            assert(rest@ =~= se0.skip(n));
        }
    }
    proof {
        assert(sv.take(n) =~= sv);
    }
    acc
}


/// What a key resolves to after a merge, from what it holds in the target
/// and in the source.
pub open spec fn merge_lookup(t: Option<Doc>, s: Option<Doc>) -> Option<Doc> {
    match (t, s) {
        (Some(x), Some(y)) => Some(merge(x, y)),
        (None, Some(y)) => Some(y),
        (x, None) => x,
    }
}

proof fn lemma_key_index_push(es: Seq<(Seq<char>, Doc)>, e: (Seq<char>, Doc), k: Seq<char>)
    ensures
        key_index(es.push(e), k) == (if key_index(es, k) >= 0 {
            key_index(es, k)
        } else if e.0 == k {
            es.len() as int
        } else {
            -1
        }),
{
    assert(es.push(e).drop_last() =~= es);
}

/// The merged entries hold, under each key, the merge of what the two sides
/// hold under it.
pub proof fn lemma_merge_entries_lookup(
    te: Seq<(Seq<char>, Doc)>,
    se: Seq<(Seq<char>, Doc)>,
    k: Seq<char>,
)
    requires
        keys_unique(se),
    ensures
        lookup(merge_entries(te, se), k) == merge_lookup(lookup(te, k), lookup(se, k)),
    decreases se.len(),
{
    if se.len() > 0 {
        let s1 = se.drop_last();
        let acc = merge_entries(te, s1);
        let kk = se.last().0;
        let v = se.last().1;
        assert(keys_unique(s1));
        lemma_merge_entries_lookup(te, s1, k);
        lemma_key_index(acc, kk);
        lemma_key_index(acc, k);
        lemma_key_index(s1, k);
        lemma_key_index(se, k);
        assert(se =~= s1.push(se.last()));
        lemma_key_index_push(s1, se.last(), k);
        let i = key_index(acc, kk);
        if i >= 0 {
            let res = acc.update(i, (kk, merge(acc[i].1, v)));
            lemma_key_index_keys(res, acc, k);
        } else {
            lemma_key_index_push(acc, se.last(), k);
        }
        if k == kk {
            let r = key_index(s1, k);
            if r >= 0 {
                assert(se[r].0 == se[se.len() - 1].0);
            }
        }
    }
}

/// Merging a well-formed document with itself gives it back.
pub proof fn lemma_merge_self(d: Doc)
    requires
        d.wf(),
    ensures
        merge(d, d) == d,
    decreases d, 1int,
{
    if d is Table {
        let es = d->Table_0;
        lemma_merge_entries_self(es, es.len() as int);
        assert(es.take(es.len() as int) =~= es);
    }
}

proof fn lemma_merge_entries_self(es: Seq<(Seq<char>, Doc)>, n: int)
    requires
        0 <= n <= es.len(),
        keys_unique(es),
        forall|i: int| 0 <= i < es.len() ==> (#[trigger] es[i]).1.wf(),
    ensures
        merge_entries(es, es.take(n)) == es,
    decreases es, 0int, n,
{
    if n > 0 {
        assert(es.take(n).drop_last() =~= es.take(n - 1));
        lemma_merge_entries_self(es, n - 1);
        let k = es[n - 1].0;
        lemma_key_index(es, k);
        let i = key_index(es, k);
        assert(i == n - 1);
        assert(decreases_to!(es => es[n - 1]));
        lemma_merge_self(es[n - 1].1);
        assert(es.update(n - 1, (k, merge(es[n - 1].1, es[n - 1].1))) =~= es);
    }
}

/// The base that a document's includes form: the first include, with each
/// later one merged over it in turn; an empty table when there are none.
pub open spec fn fold_bases(bases: Seq<Doc>) -> Doc
    decreases bases.len(),
{
    if bases.len() == 0 {
        Doc::Table(Seq::empty())
    } else if bases.len() == 1 {
        bases[0]
    } else {
        merge(fold_bases(bases.drop_last()), bases.last())
    }
}

/// A document resolved over its resolved includes: its own content wins
/// over everything it includes, later includes over earlier ones.
pub open spec fn layered(bases: Seq<Doc>, own: Doc) -> Doc {
    merge(fold_bases(bases), own)
}

/// Resolving a document that includes a single base gives the deep merge of
/// its own content over that base; a key present in both resolves to the
/// merge of the two values, which is the document's own value unless both
/// are tables.
pub proof fn lemma_include_precedence(base: Doc, own: Doc, k: Seq<char>)
    requires
        base is Table,
        own is Table,
        own.wf(),
    ensures
        layered(seq![base], own) == merge(base, own),
        merge(base, own) is Table,
        lookup(merge(base, own)->Table_0, k) == merge_lookup(
            lookup(base->Table_0, k),
            lookup(own->Table_0, k),
        ),
        forall|x: Doc, y: Doc| !(y is Table) ==> merge(x, y) == y,
{
    lemma_merge_entries_lookup(base->Table_0, own->Table_0, k);
}

/// The key under which a document lists the documents it includes.
pub open spec fn include_key() -> Seq<char> {
    seq!['i', 'n', 'c', 'l', 'u', 'd', 'e']
}

/// The strings among `xs`, in order.
pub open spec fn strings_of(xs: Seq<Doc>) -> Seq<Seq<char>>
    decreases xs.len(),
{
    if xs.len() == 0 {
        Seq::empty()
    } else if xs.last() is Str {
        strings_of(xs.drop_last()).push(xs.last()->Str_0)
    } else {
        strings_of(xs.drop_last())
    }
}

/// The include list of a document: the strings of its `include` array, or
/// nothing when it has none.
pub open spec fn include_list(d: Doc) -> Seq<Seq<char>> {
    if d is Table {
        match lookup(d->Table_0, include_key()) {
            Some(Doc::Array(xs)) => strings_of(xs),
            _ => Seq::empty(),
        }
    } else {
        Seq::empty()
    }
}

/// The value of key `k` in document `d`, when `d` is a table.
pub open spec fn field(d: Doc, k: Seq<char>) -> Option<Doc> {
    if d is Table {
        lookup(d->Table_0, k)
    } else {
        None
    }
}

/// The value of key `k` in `d`, when there is a `d` and it is a table.
pub open spec fn field_in(d: Option<Doc>, k: Seq<char>) -> Option<Doc> {
    match d {
        Some(x) => field(x, k),
        None => None,
    }
}

pub open spec fn opt_view(d: Option<&Document>) -> Option<Doc> {
    match d {
        Some(x) => Some(x@),
        None => None,
    }
}

/// The value of `key` in a table document.
pub fn get<'a>(doc: &'a Document, key: &str) -> (r: Option<&'a Document>)
    ensures
        opt_view(r) == field(doc@, key@),
{
    match doc {
        Document::Table(es) => {
            let k = key.to_owned();
            match find_entry(es, &k) {
                Some(i) => {
                    proof {
                        lemma_entries_view(es@);
                        lemma_key_index(entries_view(es@), k@);
                    }
                    Some(&es[i].1)
                },
                None => None,
            }
        },
        _ => None,
    }
}

/// The value of `key` in `doc`, when there is a `doc`.
pub fn get_in<'a>(doc: Option<&'a Document>, key: &str) -> (r: Option<&'a Document>)
    ensures
        opt_view(r) == field_in(opt_view(doc), key@),
{
    match doc {
        Some(d) => get(d, key),
        None => None,
    }
}

/// The paths that a document includes, in order.
pub fn include_paths(doc: &Document) -> (r: Vec<String>)
    ensures
        r@.map_values(|p: String| p@) == include_list(doc@),
{
    proof {
        reveal_strlit("include");
    }
    let mut out: Vec<String> = Vec::new();
    match get(doc, "include") {
        Some(Document::Array(xs)) => {
            let mut i: usize = 0;
            while i < xs.len()
                invariant
                    i <= xs.len(),
                    out@.map_values(|p: String| p@) == strings_of(items_view(xs@).take(i as int)),
                decreases xs.len() - i,
            {
                proof {
                    lemma_items_view(xs@);
                    assert(items_view(xs@).take(i + 1).drop_last() =~= items_view(xs@).take(
                        i as int,
                    ));
                }
                match &xs[i] {
                    Document::Str(p) => {
                        out.push(p.clone());
                    },
                    _ => {},
                }
                proof {
                    assert(out@.map_values(|p: String| p@) =~= strings_of(
                        items_view(xs@).take(i + 1),
                    ));
                }
                i += 1;
            }
            proof {
                lemma_items_view(xs@);
                assert(items_view(xs@).take(xs.len() as int) =~= items_view(xs@));
                assert("include"@ =~= include_key());
            }
        },
        Some(v) => {
            proof {
                assert("include"@ =~= include_key());
                assert(!(v@ is Array));
                assert(doc@ is Table);
                assert(out@.map_values(|p: String| p@) =~= include_list(doc@));
            }
        },
        None => {
            proof {
                assert("include"@ =~= include_key());
                assert(out@.map_values(|p: String| p@) =~= include_list(doc@));
            }
        },
    }
    out
}

/// Resolves a document over the documents it includes, already resolved
/// and in the order it lists them.
pub fn layer(bases: Vec<Document>, own: Document) -> (r: Document)
    ensures
        r@ == layered(items_view(bases@), own@),
{
    let ghost bv = items_view(bases@);
    let ghost b0 = bases@;
    proof {
        lemma_items_view(b0);
    }
    if bases.len() == 0 {
        proof {
            assert(entries_view(Seq::<(String, Document)>::empty()) =~= Seq::empty());
        }
        return merged(Document::Table(Vec::new()), own);
    }
    let mut rest = bases;
    let mut acc = rest.remove(0);
    let ghost mut n: int = 1;
    proof {
        assert(bv.take(1).len() == 1);
        assert(rest@ =~= b0.skip(1));
    }
    while rest.len() > 0
        invariant
            1 <= n <= b0.len(),
            bv == items_view(b0),
            bv.len() == b0.len(),
            forall|i: int| 0 <= i < b0.len() ==> #[trigger] bv[i] == b0[i]@,
            rest@ == b0.skip(n),
            acc@ == fold_bases(bv.take(n)),
        decreases rest.len(),
    {
        let next = rest.remove(0);
        proof {
            assert(b0[n] == next);
            assert(bv.take(n + 1).drop_last() =~= bv.take(n));
        }
        acc = merged(acc, next);
        proof {
            n = n + 1;
            assert(rest@ =~= b0.skip(n));
        }
    }
    proof {
        assert(bv.take(n) =~= bv);
    }
    merged(acc, own)
}

} // verus!
