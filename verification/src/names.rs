use vstd::prelude::*;

verus! {

// ---------------------------------------------------------------------------
// Decimal rendering of the probe counter.
//
// Collision candidates carry a decimal counter, as in `report(3).txt`.
// `dec_str` is the mathematical statement of that rendering; the executable
// functions below are proved against it, and its injectivity is what makes
// distinct candidates distinct.
// ---------------------------------------------------------------------------

/// The character for one decimal digit.
pub open spec fn digit_char(d: nat) -> char {
    if d == 0 {
        '0'
    } else if d == 1 {
        '1'
    } else if d == 2 {
        '2'
    } else if d == 3 {
        '3'
    } else if d == 4 {
        '4'
    } else if d == 5 {
        '5'
    } else if d == 6 {
        '6'
    } else if d == 7 {
        '7'
    } else if d == 8 {
        '8'
    } else {
        '9'
    }
}

/// The usual decimal rendering of `n`, most significant digit first.
pub open spec fn dec_str(n: nat) -> Seq<char>
    decreases n,
{
    if n < 10 {
        seq![digit_char(n)]
    } else {
        dec_str(n / 10) + seq![digit_char(n % 10)]
    }
}

pub proof fn lemma_dec_str_len(n: nat)
    ensures
        dec_str(n).len() >= 1,
        n >= 10 ==> dec_str(n).len() >= 2,
    decreases n,
{
    if n >= 10 {
        lemma_dec_str_len(n / 10);
    }
}

/// Two numbers with the same decimal rendering are equal.
pub proof fn lemma_dec_str_injective(m: nat, n: nat)
    requires
        dec_str(m) == dec_str(n),
    ensures
        m == n,
    decreases m + n,
{
    lemma_dec_str_len(m);
    lemma_dec_str_len(n);
    if m < 10 && n < 10 {
        assert(dec_str(m) == seq![digit_char(m)]);
        assert(dec_str(n) == seq![digit_char(n)]);
        assert(dec_str(m)[0] == digit_char(m));
        assert(dec_str(n)[0] == digit_char(n));
        assert(m == n);
    } else if m < 10 || n < 10 {
        assert(dec_str(m).len() != dec_str(n).len());
    } else {
        assert(dec_str(m).last() == digit_char(m % 10));
        assert(dec_str(n).last() == digit_char(n % 10));
        assert(digit_char(m % 10) == digit_char(n % 10));
        assert(m % 10 < 10 && n % 10 < 10);
        assert(m % 10 == n % 10);
        assert(dec_str(m).drop_last() =~= dec_str(m / 10));
        assert(dec_str(n).drop_last() =~= dec_str(n / 10));
        assert(dec_str(m / 10) == dec_str(n / 10));
        lemma_dec_str_injective(m / 10, n / 10);
        assert(m == 10 * (m / 10) + m % 10);
        assert(n == 10 * (n / 10) + n % 10);
    }
}

/// The one-character string for the decimal digit `d`.
fn digit_str(d: usize) -> (r: &'static str)
    requires
        d < 10,
    ensures
        r@ == seq![digit_char(d as nat)],
{
    proof {
        reveal_strlit("0");
        reveal_strlit("1");
        reveal_strlit("2");
        reveal_strlit("3");
        reveal_strlit("4");
        reveal_strlit("5");
        reveal_strlit("6");
        reveal_strlit("7");
        reveal_strlit("8");
        reveal_strlit("9");
    }
    let r: &'static str = if d == 0 {
        "0"
    } else if d == 1 {
        "1"
    } else if d == 2 {
        "2"
    } else if d == 3 {
        "3"
    } else if d == 4 {
        "4"
    } else if d == 5 {
        "5"
    } else if d == 6 {
        "6"
    } else if d == 7 {
        "7"
    } else if d == 8 {
        "8"
    } else {
        "9"
    };
    proof {
        assert(r@ =~= seq![digit_char(d as nat)]);
    }
    r
}

/// Renders `n` in decimal.
pub fn usize_to_dec(n: usize) -> (s: String)
    ensures
        s@ == dec_str(n as nat),
    decreases n,
{
    if n < 10 {
        String::from_str(digit_str(n))
    } else {
        let mut s = usize_to_dec(n / 10);
        s.append(digit_str(n % 10));
        s
    }
}

// ---------------------------------------------------------------------------
// Stem / extension splitting.
//
// A base name splits at its last dot, provided that dot is not the leading
// character: `a.txt` is `a` + `txt`, `archive.tar.gz` is `archive.tar` + `gz`,
// while `.hidden` and `plain` have no extension.
// ---------------------------------------------------------------------------

/// `i` is the position of the last dot of `s` and is not the leading
/// character: exactly the point where an ordinary stem/extension split cuts.
pub open spec fn ext_split_at(s: Seq<char>, i: int) -> bool {
    &&& 1 <= i < s.len()
    &&& s[i] == '.'
    &&& forall|j: int| i < j < s.len() ==> s[j] != '.'
}

/// Whether `s` has an extension: a dot somewhere after the leading character.
pub open spec fn has_ext(s: Seq<char>) -> bool {
    exists|i: int| ext_split_at(s, i)
}

/// The split position (meaningful only when `has_ext(s)` holds).
pub open spec fn split_idx(s: Seq<char>) -> int {
    choose|i: int| ext_split_at(s, i)
}

/// Everything before the last dot; the whole name when there is no extension.
pub open spec fn stem_of(s: Seq<char>) -> Seq<char> {
    if has_ext(s) {
        s.take(split_idx(s))
    } else {
        s
    }
}

/// Everything after the last dot, when there is an extension.
pub open spec fn ext_of(s: Seq<char>) -> Option<Seq<char>> {
    if has_ext(s) {
        Some(s.skip(split_idx(s) + 1))
    } else {
        None
    }
}

/// The dot-plus-extension tail that a candidate name carries, if any.
pub open spec fn ext_part(s: Seq<char>) -> Seq<char> {
    match ext_of(s) {
        Some(e) => seq!['.'] + e,
        None => Seq::empty(),
    }
}

pub proof fn lemma_ext_split_unique(s: Seq<char>, i1: int, i2: int)
    requires
        ext_split_at(s, i1),
        ext_split_at(s, i2),
    ensures
        i1 == i2,
{
    if i1 < i2 {
        assert(s[i2] != '.');
    }
    if i2 < i1 {
        assert(s[i1] != '.');
    }
}

/// The stem, the dot and the extension together give back the base name.
pub proof fn lemma_split_recombine(s: Seq<char>)
    ensures
        stem_of(s) + ext_part(s) == s,
{
    if has_ext(s) {
        let i = split_idx(s);
        assert(ext_split_at(s, i));
        assert(stem_of(s) + ext_part(s) =~= s);
    } else {
        assert(stem_of(s) + ext_part(s) =~= s);
    }
}

/// The position of the stem/extension split of `name`, if it has one.
fn find_last_dot(name: &str) -> (r: Option<usize>)
    ensures
        match r {
            Some(i) => ext_split_at(name@, i as int),
            None => !has_ext(name@),
        },
{
    let n = name.unicode_len();
    let mut i = n;
    while i > 1
        invariant
            i <= n,
            n == name@.len(),
            forall|j: int| i <= j < n ==> name@[j] != '.',
        decreases i,
    {
        i = i - 1;
        if name.get_char(i) == '.' {
            return Some(i);
        }
    }
    None
}

/// Splits a base name into its stem and, if it has one, its extension.
pub fn split_base_name(name: &str) -> (r: (String, Option<String>))
    ensures
        r.0@ == stem_of(name@),
        match r.1 {
            Some(e) => ext_of(name@) == Some(e@),
            None => ext_of(name@) is None,
        },
{
    match find_last_dot(name) {
        Some(i) => {
            proof {
                assert(has_ext(name@));
                lemma_ext_split_unique(name@, i as int, split_idx(name@));
            }
            let n = name.unicode_len();
            let stem = name.substring_char(0, i);
            let ext = name.substring_char(i + 1, n);
            (String::from_str(stem), Some(String::from_str(ext)))
        },
        None => (String::from_str(name), None),
    }
}

// ---------------------------------------------------------------------------
// Collision candidates.
//
// Candidate 0 for a base name is the name itself; candidate k >= 1 inserts
// `(k)` between stem and extension, as in `report(3).txt`.
// ---------------------------------------------------------------------------

/// The k-th collision candidate for a base name.
pub open spec fn candidate(name: Seq<char>, k: nat) -> Seq<char> {
    if k == 0 {
        name
    } else {
        stem_of(name) + seq!['('] + dec_str(k) + seq![')'] + ext_part(name)
    }
}

pub proof fn lemma_candidate_len(name: Seq<char>, k: nat)
    requires
        k >= 1,
    ensures
        candidate(name, k).len() == name.len() + 2 + dec_str(k).len(),
{
    lemma_split_recombine(name);
}

/// Distinct probe counters give distinct candidate names.
pub proof fn lemma_candidate_injective(name: Seq<char>, j: nat, k: nat)
    requires
        candidate(name, j) == candidate(name, k),
    ensures
        j == k,
{
    if j >= 1 && k == 0 {
        lemma_candidate_len(name, j);
        lemma_dec_str_len(j);
        assert(candidate(name, j).len() != candidate(name, k).len());
    } else if j == 0 && k >= 1 {
        lemma_candidate_len(name, k);
        lemma_dec_str_len(k);
        assert(candidate(name, j).len() != candidate(name, k).len());
    } else if j >= 1 && k >= 1 && j != k {
        lemma_candidate_len(name, j);
        lemma_candidate_len(name, k);
        let st = stem_of(name);
        let dj = dec_str(j);
        let dk = dec_str(k);
        assert(dj.len() == dk.len());
        assert forall|t: int| 0 <= t < dj.len() implies dj[t] == dk[t] by {
            assert(candidate(name, j)[st.len() + 1 + t] == dj[t]);
            assert(candidate(name, k)[st.len() + 1 + t] == dk[t]);
        }
        assert(dj =~= dk);
        lemma_dec_str_injective(j, k);
    }
}

// ---------------------------------------------------------------------------
// The unique-name probe.
//
// Against a snapshot of the occupied names, the probe tries candidate 0,
// 1, 2, ... and returns the first candidate that is not occupied.  The
// probe always terminates: candidates are pairwise distinct, so among the
// first `occupied.len() + 1` of them one must be free.
// ---------------------------------------------------------------------------

/// The set of names an executable listing stands for.
pub open spec fn occ_view(vs: Seq<String>) -> Set<Seq<char>> {
    Set::new(|x: Seq<char>| exists|i: int| 0 <= i < vs.len() && vs[i]@ == x)
}

pub proof fn lemma_occ_view_finite(vs: Seq<String>)
    ensures
        occ_view(vs).finite(),
        occ_view(vs).len() <= vs.len(),
    decreases vs.len(),
{
    if vs.len() == 0 {
        assert(occ_view(vs) =~= Set::<Seq<char>>::empty());
    } else {
        lemma_occ_view_finite(vs.drop_last());
        assert forall|x: Seq<char>| occ_view(vs).contains(x) implies occ_view(
            vs.drop_last(),
        ).insert(vs.last()@).contains(x) by {
            let i = choose|i: int| 0 <= i < vs.len() && vs[i]@ == x;
            if i < vs.len() - 1 {
                assert(vs.drop_last()[i] == vs[i]);
                assert(occ_view(vs.drop_last()).contains(x));
            }
        }
        assert forall|x: Seq<char>|
            occ_view(vs.drop_last()).insert(vs.last()@).contains(x) implies occ_view(vs).contains(
            x,
        ) by {
            if occ_view(vs.drop_last()).contains(x) {
                let i = choose|i: int| 0 <= i < vs.drop_last().len() && vs.drop_last()[i]@ == x;
                assert(vs[i]@ == x);
            } else {
                assert(vs[vs.len() - 1]@ == x);
            }
        }
        assert(occ_view(vs) =~= occ_view(vs.drop_last()).insert(vs.last()@));
    }
}

/// `k` is the counter the probe answers with: candidate `k` is free and
/// every earlier candidate is occupied.
pub open spec fn is_first_free(name: Seq<char>, occ: Set<Seq<char>>, k: nat) -> bool {
    &&& !occ.contains(candidate(name, k))
    &&& forall|j: nat| j < k ==> occ.contains(candidate(name, j))
}

/// The counter the probe answers with (meaningful whenever `occ` is finite).
pub open spec fn free_index(name: Seq<char>, occ: Set<Seq<char>>) -> nat {
    choose|k: nat| is_first_free(name, occ, k)
}

/// The name the probe answers with: the first free candidate.
pub open spec fn resolved_name(name: Seq<char>, occ: Set<Seq<char>>) -> Seq<char> {
    candidate(name, free_index(name, occ))
}

/// A name that is not occupied is kept unchanged: the probe answers with
/// candidate 0, the base name itself.
pub proof fn lemma_free_name_unchanged(name: Seq<char>, occ: Set<Seq<char>>)
    requires
        occ.finite(),
        !occ.contains(name),
    ensures
        resolved_name(name, occ) == name,
{
    assert(candidate(name, 0) == name);
    assert(is_first_free(name, occ, 0));
    lemma_first_free_exists(name, occ);
    lemma_first_free_unique(name, occ, 0, free_index(name, occ));
}

pub proof fn lemma_first_free_unique(name: Seq<char>, occ: Set<Seq<char>>, k1: nat, k2: nat)
    requires
        is_first_free(name, occ, k1),
        is_first_free(name, occ, k2),
    ensures
        k1 == k2,
{
    if k1 < k2 {
        assert(occ.contains(candidate(name, k1)));
    }
    if k2 < k1 {
        assert(occ.contains(candidate(name, k2)));
    }
}

/// Pigeonhole bound on the probe: a set of at most `n` occupied names
/// cannot swallow all of the first `n + 1` candidates, which are pairwise
/// distinct, so one of them is free.
pub proof fn lemma_probe_bounded(name: Seq<char>, occ: Set<Seq<char>>, n: nat)
    requires
        occ.finite(),
        occ.len() <= n,
    ensures
        exists|j: nat| j <= n && !occ.contains(candidate(name, j)),
{
    if forall|j: nat| j <= n ==> occ.contains(candidate(name, j)) {
        let cs = Seq::new(n + 1, |j: int| candidate(name, j as nat));
        assert(cs.no_duplicates()) by {
            assert forall|p: int, q: int|
                0 <= p < cs.len() && 0 <= q < cs.len() && p != q implies cs[p] != cs[q] by {
                if cs[p] == cs[q] {
                    lemma_candidate_injective(name, p as nat, q as nat);
                }
            }
        }
        cs.unique_seq_to_set();
        assert(cs.to_set().subset_of(occ)) by {
            assert forall|x: Seq<char>| cs.to_set().contains(x) implies occ.contains(x) by {
                let i = choose|i: int| 0 <= i < cs.len() && cs[i] == x;
                assert(occ.contains(candidate(name, i as nat)));
            }
        }
        vstd::set_lib::lemma_len_subset(cs.to_set(), occ);
    }
}

proof fn lemma_least_free(name: Seq<char>, occ: Set<Seq<char>>, j: nat)
    requires
        !occ.contains(candidate(name, j)),
    ensures
        exists|k: nat| is_first_free(name, occ, k),
    decreases j,
{
    if forall|i: nat| i < j ==> occ.contains(candidate(name, i)) {
        assert(is_first_free(name, occ, j));
    } else {
        let i0 = choose|i: nat| i < j && !occ.contains(candidate(name, i));
        lemma_least_free(name, occ, i0);
    }
}

/// Over a finite set of occupied names the probe has an answer, and
/// `free_index` is it.
pub proof fn lemma_first_free_exists(name: Seq<char>, occ: Set<Seq<char>>)
    requires
        occ.finite(),
    ensures
        is_first_free(name, occ, free_index(name, occ)),
{
    lemma_probe_bounded(name, occ, occ.len());
    let j0 = choose|j: nat| j <= occ.len() && !occ.contains(candidate(name, j));
    lemma_least_free(name, occ, j0);
}

fn vec_contains_name(v: &Vec<String>, s: &String) -> (r: bool)
    ensures
        r == occ_view(v@).contains(s@),
{
    let mut i: usize = 0;
    while i < v.len()
        invariant
            i <= v@.len(),
            forall|j: int| 0 <= j < i ==> v@[j]@ != s@,
        decreases v@.len() - i,
    {
        if v[i].eq(s) {
            return true;
        }
        i = i + 1;
    }
    false
}

/// Builds the k-th collision candidate for a base name.
pub fn make_candidate(name: &str, k: usize) -> (c: String)
    ensures
        c@ == candidate(name@, k as nat),
{
    if k == 0 {
        String::from_str(name)
    } else {
        let (stem, ext) = split_base_name(name);
        let mut s = stem;
        s.append("(");
        let dec = usize_to_dec(k);
        s.append(dec.as_str());
        s.append(")");
        match ext {
            Some(e) => {
                s.append(".");
                s.append(e.as_str());
            },
            None => {},
        }
        proof {
            reveal_strlit("(");
            reveal_strlit(")");
            reveal_strlit(".");
            assert("("@ =~= seq!['(']);
            assert(")"@ =~= seq![')']);
            assert("."@ =~= seq!['.']);
            assert(s@ =~= candidate(name@, k as nat));
        }
        s
    }
}

/// The unique-name probe: the first of candidate 0, 1, 2, ... for `name`
/// that does not occur among the occupied names.
pub fn resolve_unique_name(name: &str, occupied: &Vec<String>) -> (r: String)
    ensures
        is_first_free(name@, occ_view(occupied@), free_index(name@, occ_view(occupied@))),
        r@ == resolved_name(name@, occ_view(occupied@)),
{
    let ghost occ = occ_view(occupied@);
    let n = occupied.len();
    let mut k: usize = 0;
    loop
        invariant
            k <= n,
            n == occupied@.len(),
            occ == occ_view(occupied@),
            forall|j: nat| j < k ==> occ.contains(candidate(name@, j)),
        decreases n - k,
    {
        let c = make_candidate(name, k);
        if !vec_contains_name(occupied, &c) {
            proof {
                assert(is_first_free(name@, occ, k as nat));
                lemma_first_free_unique(name@, occ, k as nat, free_index(name@, occ));
            }
            return c;
        }
        if k == n {
            // Cannot happen: by the pigeonhole bound some candidate among
            // the first n + 1 is free, yet all were found occupied.
            proof {
                lemma_occ_view_finite(occupied@);
                lemma_probe_bounded(name@, occ, n as nat);
                let j0 = choose|j: nat| j <= n as nat && !occ.contains(candidate(name@, j));
                assert(occ.contains(candidate(name@, j0)));
            }
            return c;
        }
        k = k + 1;
    }
}

} // verus!
