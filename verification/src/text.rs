use vstd::prelude::*;
use vstd::relations::{antisymmetric, reflexive, strongly_connected, total_ordering, transitive};

verus! {

// ---------------------------------------------------------------------------
// Lexicographic order on character sequences
// ---------------------------------------------------------------------------
/// Lexicographic "less than or equal" on character sequences, ordering
/// characters by their Unicode scalar value.  This is the order in which
/// per-system item lists are kept.
pub open spec fn lex_leq(a: Seq<char>, b: Seq<char>) -> bool
    decreases a.len(),
{
    if a.len() == 0 {
        true
    } else if b.len() == 0 {
        false
    } else if (a[0] as u32) < (b[0] as u32) {
        true
    } else if (b[0] as u32) < (a[0] as u32) {
        false
    } else {
        lex_leq(a.drop_first(), b.drop_first())
    }
}

/// `lex_leq` as a first-class relation, for use with vstd's ordering lemmas.
pub open spec fn lex_leq_fn() -> spec_fn(Seq<char>, Seq<char>) -> bool {
    |a: Seq<char>, b: Seq<char>| lex_leq(a, b)
}

proof fn lemma_lex_leq_refl(a: Seq<char>)
    ensures
        lex_leq(a, a),
    decreases a.len(),
{
    if a.len() > 0 {
        lemma_lex_leq_refl(a.drop_first());
    }
}

proof fn lemma_lex_leq_antisym(a: Seq<char>, b: Seq<char>)
    requires
        lex_leq(a, b),
        lex_leq(b, a),
    ensures
        a == b,
    decreases a.len(),
{
    if a.len() == 0 {
        assert(b.len() == 0);
        assert(a =~= b);
    } else {
        assert(b.len() > 0);
        assert((a[0] as u32) == (b[0] as u32));
        vstd::utf8::char_u32_cast(a[0], a[0] as u32);
        vstd::utf8::char_u32_cast(b[0], b[0] as u32);
        assert(a[0] == b[0]);
        lemma_lex_leq_antisym(a.drop_first(), b.drop_first());
        assert(a.len() == b.len());
        assert forall|j: int| 0 <= j < a.len() implies a[j] == b[j] by {
            if j > 0 {
                assert(a[j] == a.drop_first()[j - 1]);
                assert(b[j] == b.drop_first()[j - 1]);
            }
        }
        assert(a =~= b);
    }
}

proof fn lemma_lex_leq_trans(a: Seq<char>, b: Seq<char>, c: Seq<char>)
    requires
        lex_leq(a, b),
        lex_leq(b, c),
    ensures
        lex_leq(a, c),
    decreases a.len(),
{
    if a.len() > 0 && b.len() > 0 && c.len() > 0 {
        if (a[0] as u32) == (b[0] as u32) && (b[0] as u32) == (c[0] as u32) {
            lemma_lex_leq_trans(a.drop_first(), b.drop_first(), c.drop_first());
        }
    }
}

proof fn lemma_lex_leq_connected(a: Seq<char>, b: Seq<char>)
    ensures
        lex_leq(a, b) || lex_leq(b, a),
    decreases a.len(),
{
    if a.len() > 0 && b.len() > 0 {
        lemma_lex_leq_connected(a.drop_first(), b.drop_first());
    }
}

/// `lex_leq` is a total order: the sorted form of a list of items is unique,
/// so scanning yields the same lists however the directory walk happened to
/// order its files.
pub proof fn lemma_lex_leq_total_ordering()
    ensures
        total_ordering(lex_leq_fn()),
{
    let leq = lex_leq_fn();
    assert forall|x: Seq<char>| #[trigger] leq(x, x) by {
        lemma_lex_leq_refl(x);
    }
    assert(reflexive(leq));
    assert forall|x: Seq<char>, y: Seq<char>| #[trigger] leq(x, y) && #[trigger] leq(y, x) implies x
        == y by {
        lemma_lex_leq_antisym(x, y);
    }
    assert(antisymmetric(leq));
    assert forall|x: Seq<char>, y: Seq<char>, z: Seq<char>|
        #[trigger] leq(x, y) && #[trigger] leq(y, z) implies leq(x, z) by {
        lemma_lex_leq_trans(x, y, z);
    }
    assert(transitive(leq));
    assert forall|x: Seq<char>, y: Seq<char>| #[trigger] leq(x, y) || #[trigger] leq(y, x) by {
        lemma_lex_leq_connected(x, y);
    }
    assert(strongly_connected(leq));
}

proof fn lemma_lex_leq_skip(a: Seq<char>, b: Seq<char>, i: int)
    requires
        0 <= i <= a.len(),
        i <= b.len(),
        forall|j: int| 0 <= j < i ==> (#[trigger] a[j] as u32) == (b[j] as u32),
    ensures
        lex_leq(a, b) == lex_leq(a.skip(i), b.skip(i)),
    decreases i,
{
    if i > 0 {
        assert(a.drop_first().skip(i - 1) =~= a.skip(i));
        assert(b.drop_first().skip(i - 1) =~= b.skip(i));
        assert forall|j: int| 0 <= j < i - 1 implies (#[trigger] a.drop_first()[j] as u32) == (
        b.drop_first()[j] as u32) by {
            assert(a[j + 1] as u32 == b[j + 1] as u32);
        }
        lemma_lex_leq_skip(a.drop_first(), b.drop_first(), i - 1);
    } else {
        assert(a.skip(0) =~= a);
        assert(b.skip(0) =~= b);
    }
}

/// Compare two strings in the `lex_leq` order.
pub fn str_lex_leq(a: &str, b: &str) -> (r: bool)
    ensures
        r == lex_leq(a@, b@),
{
    let alen = a.unicode_len();
    let blen = b.unicode_len();
    let mut i: usize = 0;
    loop
        invariant
            i <= alen,
            i <= blen,
            alen == a@.len(),
            blen == b@.len(),
            forall|j: int| 0 <= j < i ==> (#[trigger] a@[j] as u32) == (b@[j] as u32),
        decreases alen - i,
    {
        proof {
            lemma_lex_leq_skip(a@, b@, i as int);
        }
        if i == alen {
            assert(a@.skip(i as int).len() == 0);
            return true;
        }
        if i == blen {
            assert(b@.skip(i as int).len() == 0);
            assert(a@.skip(i as int).len() > 0);
            return false;
        }
        let ca = a.get_char(i);
        let cb = b.get_char(i);
        proof {
            assert(a@.skip(i as int)[0] == a@[i as int]);
            assert(b@.skip(i as int)[0] == b@[i as int]);
        }
        if (ca as u32) < (cb as u32) {
            return true;
        }
        if (cb as u32) < (ca as u32) {
            return false;
        }
        i = i + 1;
    }
}

/// Whether two strings hold the same characters.
pub fn str_eq(a: &str, b: &str) -> (r: bool)
    ensures
        r == (a@ == b@),
{
    let alen = a.unicode_len();
    let blen = b.unicode_len();
    if alen != blen {
        return false;
    }
    let mut i: usize = 0;
    while i < alen
        invariant
            i <= alen,
            alen == a@.len(),
            alen == b@.len(),
            forall|j: int| 0 <= j < i ==> a@[j] == b@[j],
        decreases alen - i,
    {
        let ca = a.get_char(i);
        let cb = b.get_char(i);
        if ca != cb {
            return false;
        }
        i = i + 1;
    }
    proof {
        assert(a@ =~= b@);
    }
    true
}

// ---------------------------------------------------------------------------
// Sorting
// ---------------------------------------------------------------------------
/// Sort a list of strings into the `lex_leq` order by repeated insertion.
pub fn sort_strings(v: &Vec<String>) -> (r: Vec<String>)
    ensures
        vstd::relations::sorted_by(r.deep_view(), lex_leq_fn()),
        r.deep_view().to_multiset() == v.deep_view().to_multiset(),
{
    let mut r: Vec<String> = Vec::new();
    let mut idx: usize = 0;
    proof {
        assert(v.deep_view().take(0) =~= Seq::<Seq<char>>::empty());
        assert(r.deep_view() =~= Seq::<Seq<char>>::empty());
    }
    while idx < v.len()
        invariant
            idx <= v.len(),
            vstd::relations::sorted_by(r.deep_view(), lex_leq_fn()),
            r.deep_view().to_multiset() == v.deep_view().take(idx as int).to_multiset(),
        decreases v.len() - idx,
    {
        let s: String = v[idx].clone();
        assert(s@ == v.deep_view()[idx as int]);
        let mut p: usize = 0;
        loop
            invariant
                p <= r.len(),
                forall|j: int| 0 <= j < p ==> lex_leq(#[trigger] r.deep_view()[j], s@),
            ensures
                p <= r.len(),
                forall|j: int| 0 <= j < p ==> lex_leq(#[trigger] r.deep_view()[j], s@),
                p < r.len() ==> !lex_leq(r.deep_view()[p as int], s@),
            decreases r.len() - p,
        {
            if p == r.len() {
                break ;
            }
            if !str_lex_leq(r[p].as_str(), s.as_str()) {
                break ;
            }
            p = p + 1;
        }
        let ghost old_r = r.deep_view();
        let ghost leq = lex_leq_fn();
        r.insert(p, s);
        proof {
            lemma_lex_leq_total_ordering();
            assert(r.deep_view() =~= old_r.insert(p as int, s@));
            old_r.insert_ensures(p as int, s@);
            let dv = r.deep_view();
            assert forall|i: int, j: int| 0 <= i < j < dv.len() implies #[trigger] leq(
                dv[i],
                dv[j],
            ) by {
                if j < p {
                    assert(leq(old_r[i], old_r[j]));
                } else if j == p {
                    assert(lex_leq(old_r[i], s@));
                } else if i < p {
                    assert(leq(old_r[i], old_r[j - 1]));
                } else if i == p {
                    lemma_lex_leq_connected(s@, old_r[p as int]);
                    assert(leq(s@, old_r[p as int]));
                    if j - 1 > p {
                        assert(leq(old_r[p as int], old_r[j - 1]));
                        lemma_lex_leq_trans(s@, old_r[p as int], old_r[j - 1]);
                    }
                } else {
                    assert(leq(old_r[i - 1], old_r[j - 1]));
                }
            }
            vstd::seq_lib::to_multiset_insert(old_r, p as int, s@);
            assert(v.deep_view().take(idx + 1) =~= v.deep_view().take(idx as int).push(
                v.deep_view()[idx as int],
            ));
            vstd::seq_lib::to_multiset_build(v.deep_view().take(idx as int), s@);
        }
        idx = idx + 1;
    }
    proof {
        assert(v.deep_view().take(v.len() as int) =~= v.deep_view());
    }
    r
}

// ---------------------------------------------------------------------------
// Case folding
// ---------------------------------------------------------------------------
/// The sequence of characters that std's Unicode lowercase mapping produces
/// for a given sequence.  Left uninterpreted: the mapping is a fixed function
/// of the characters, but far too large to restate here.
pub uninterp spec fn lower_of(s: Seq<char>) -> Seq<char>;

/// Relies on `str::to_lowercase` of std: per its documentation the result is
/// the Unicode lowercase mapping of the input, a function of the characters
/// alone (no locale), and an empty string stays empty.
#[verifier::external_body]
pub(crate) fn lowercase(s: &str) -> (r: String)
    ensures
        r@ == lower_of(s@),
        s@.len() == 0 ==> r@.len() == 0,
{
    s.to_lowercase()
}

// ---------------------------------------------------------------------------
// Decimal rendering
// ---------------------------------------------------------------------------
/// The character for one decimal digit.
pub open spec fn digit_char(d: nat) -> char {
    if d == 0 {
        '0'
    } else if d == 1 {
        '1'
    } else if d == 2 {
        '2'
    } else if d == 3 {
        '3'
    } else if d == 4 {
        '4'
    } else if d == 5 {
        '5'
    } else if d == 6 {
        '6'
    } else if d == 7 {
        '7'
    } else if d == 8 {
        '8'
    } else {
        '9'
    }
}

/// The decimal rendering of a number, most significant digit first.
pub open spec fn dec_str(n: nat) -> Seq<char>
    decreases n,
{
    if n < 10 {
        seq![digit_char(n)]
    } else {
        dec_str(n / 10).push(digit_char(n % 10))
    }
}

fn digit_string(d: u64) -> (r: String)
    requires
        d < 10,
    ensures
        r@ =~= seq![digit_char(d as nat)],
{
    let s: &str = if d == 0 {
        "0"
    } else if d == 1 {
        "1"
    } else if d == 2 {
        "2"
    } else if d == 3 {
        "3"
    } else if d == 4 {
        "4"
    } else if d == 5 {
        "5"
    } else if d == 6 {
        "6"
    } else if d == 7 {
        "7"
    } else if d == 8 {
        "8"
    } else {
        "9"
    };
    proof {
        reveal_strlit("0");
        reveal_strlit("1");
        reveal_strlit("2");
        reveal_strlit("3");
        reveal_strlit("4");
        reveal_strlit("5");
        reveal_strlit("6");
        reveal_strlit("7");
        reveal_strlit("8");
        reveal_strlit("9");
    }
    String::from_str(s)
}

/// Render a number in decimal.
pub fn u64_to_string(n: u64) -> (r: String)
    ensures
        r@ == dec_str(n as nat),
    decreases n,
{
    if n < 10 {
        digit_string(n)
    } else {
        proof {
            assert(n / 10 < n) by (nonlinear_arith)
                requires
                    n >= 10,
            ;
        }
        let mut s = u64_to_string(n / 10);
        let d = digit_string(n % 10);
        s.append(d.as_str());
        proof {
            assert(s@ =~= dec_str((n / 10) as nat).push(digit_char((n % 10) as nat)));
        }
        s
    }
}

// ---------------------------------------------------------------------------
// Path text helpers
// ---------------------------------------------------------------------------
/// Length of the leading path segment: the number of characters before the
/// first `/`, or the whole length when there is none.
pub open spec fn first_seg_len(p: Seq<char>) -> int
    decreases p.len(),
{
    if p.len() == 0 {
        0
    } else if p[0] == '/' {
        0
    } else {
        1 + first_seg_len(p.drop_first())
    }
}

/// The first path segment of a relative path: for an item stored as
/// `system/dir/file.ext` this is the candidate system identifier.
pub open spec fn first_seg(p: Seq<char>) -> Seq<char> {
    p.take(first_seg_len(p))
}

proof fn lemma_first_seg_len(p: Seq<char>)
    ensures
        0 <= first_seg_len(p) <= p.len(),
        forall|j: int| 0 <= j < first_seg_len(p) ==> p[j] != '/',
        first_seg_len(p) < p.len() ==> p[first_seg_len(p)] == '/',
    decreases p.len(),
{
    if p.len() > 0 && p[0] != '/' {
        lemma_first_seg_len(p.drop_first());
        assert forall|j: int| 0 <= j < first_seg_len(p) implies p[j] != '/' by {
            if j > 0 {
                assert(p.drop_first()[j - 1] != '/');
            }
        }
    }
}

/// The text before the first `/` of the path (the whole path when it has no
/// separator).
pub fn path_first_segment(p: &str) -> (r: String)
    ensures
        r@ == first_seg(p@),
{
    let len = p.unicode_len();
    let mut i: usize = 0;
    loop
        invariant
            i <= len,
            len == p@.len(),
            forall|j: int| 0 <= j < i ==> p@[j] != '/',
        decreases len - i,
    {
        proof {
            lemma_first_seg_len(p@);
        }
        if i == len {
            assert(first_seg_len(p@) == len as int);
            return p.substring_char(0, len).to_owned();
        }
        let c = p.get_char(i);
        if c == '/' {
            assert(first_seg_len(p@) == i as int) by {
                if first_seg_len(p@) < i as int {
                    assert(p@[first_seg_len(p@)] == '/');
                }
            }
            return p.substring_char(0, i).to_owned();
        }
        i = i + 1;
    }
}

/// `i` marks the extension dot of `p`: the last `.` of the final path
/// segment, not in leading position within that segment.
pub open spec fn is_ext_dot(p: Seq<char>, i: int) -> bool {
    &&& 0 < i < p.len()
    &&& p[i] == '.'
    &&& p[i - 1] != '/'
    &&& forall|j: int| i < j < p.len() ==> p[j] != '.' && p[j] != '/'
}

pub open spec fn has_ext(p: Seq<char>) -> bool {
    exists|i: int| is_ext_dot(p, i)
}

pub open spec fn ext_index(p: Seq<char>) -> int {
    choose|i: int| is_ext_dot(p, i)
}

/// The extension of a path, mirroring how std's `Path::extension` reads the
/// text: the part of the final segment after its last `.`, provided that dot
/// is neither the segment's first character nor absent.
pub open spec fn path_ext(p: Seq<char>) -> Option<Seq<char>> {
    if has_ext(p) {
        Some(p.skip(ext_index(p) + 1))
    } else {
        None
    }
}

proof fn lemma_ext_dot_unique(p: Seq<char>, i1: int, i2: int)
    requires
        is_ext_dot(p, i1),
        is_ext_dot(p, i2),
    ensures
        i1 == i2,
{
    if i1 < i2 {
        assert(p[i2] == '.');
    } else if i2 < i1 {
        assert(p[i1] == '.');
    }
}

/// The extension of the path, if it has one.
pub fn path_extension(p: &str) -> (r: Option<String>)
    ensures
        r is Some <==> has_ext(p@),
        r matches Some(e) ==> Some(e@) == path_ext(p@),
        r is None ==> path_ext(p@) is None,
{
    let len = p.unicode_len();
    let mut k: usize = len;
    loop
        invariant
            k <= len,
            len == p@.len(),
            forall|j: int| k <= j < len ==> p@[j] != '.' && p@[j] != '/',
        decreases k,
    {
        if k == 0 {
            proof {
                assert forall|i: int| !is_ext_dot(p@, i) by {
                    if is_ext_dot(p@, i) {
                        assert(p@[i] != '.');
                    }
                }
            }
            return None;
        }
        let c = p.get_char(k - 1);
        if c == '/' {
            proof {
                assert forall|i: int| !is_ext_dot(p@, i) by {
                    if is_ext_dot(p@, i) {
                        if i < k - 1 {
                            // the slash at k - 1 stands after i
                            assert(p@[k - 1] != '/');
                        } else {
                            // i lies in the scanned tail, which holds no dot
                            assert(p@[i] != '.');
                        }
                    }
                }
            }
            return None;
        }
        if c == '.' {
            let i = k - 1;
            if i == 0 {
                proof {
                    assert forall|d: int| !is_ext_dot(p@, d) by {
                        if is_ext_dot(p@, d) {
                            // every candidate dot lies in the scanned tail
                            assert(p@[d] != '.');
                        }
                    }
                }
                return None;
            }
            let before = p.get_char(i - 1);
            if before == '/' {
                proof {
                    assert forall|d: int| !is_ext_dot(p@, d) by {
                        if is_ext_dot(p@, d) {
                            if d < i as int {
                                // the dot at i stands after d
                                assert(p@[i as int] != '.');
                            } else if d > i as int {
                                assert(p@[d] != '.');
                            }
                        }
                    }
                }
                return None;
            }
            proof {
                assert(is_ext_dot(p@, i as int));
                lemma_ext_dot_unique(p@, ext_index(p@), i as int);
            }
            return Some(p.substring_char(i + 1, len).to_owned());
        }
        k = k - 1;
    }
}

} // verus!
