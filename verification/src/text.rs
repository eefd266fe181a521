//! Character-level text operations shared by the settings, player and
//! presence modules: trimming, ASCII case folding, splitting, joining,
//! lexicographic sorting and number formatting, each proved against a
//! specification over `Seq<char>`.
use vstd::prelude::*;

verus! {

// ---------------------------------------------------------------------------
// Specifications
// ---------------------------------------------------------------------------

/// The Unicode `White_Space` property, which `char::is_whitespace` tests.
pub open spec fn is_white_space(c: char) -> bool {
    let u = c as u32;
    ||| 0x9 <= u <= 0xD
    ||| u == 0x20
    ||| u == 0x85
    ||| u == 0xA0
    ||| u == 0x1680
    ||| 0x2000 <= u <= 0x200A
    ||| u == 0x2028
    ||| u == 0x2029
    ||| u == 0x202F
    ||| u == 0x205F
    ||| u == 0x3000
}

/// `s` without its leading white space.
pub open spec fn trim_start(s: Seq<char>) -> Seq<char>
    decreases s.len(),
{
    if s.len() > 0 && is_white_space(s[0]) {
        trim_start(s.drop_first())
    } else {
        s
    }
}

/// `s` without its trailing white space.
pub open spec fn trim_end(s: Seq<char>) -> Seq<char>
    decreases s.len(),
{
    if s.len() > 0 && is_white_space(s.last()) {
        trim_end(s.drop_last())
    } else {
        s
    }
}

/// `s` without leading and trailing white space (what `str::trim` returns).
pub open spec fn trim(s: Seq<char>) -> Seq<char> {
    trim_end(trim_start(s))
}

/// ASCII upper-case letters mapped to lower case, every other character kept.
pub open spec fn ascii_lower_char(c: char) -> char {
    if 'A' <= c && c <= 'Z' {
        ((c as u32) + 32) as char
    } else {
        c
    }
}

/// `s` with every ASCII upper-case letter lowered (`str::to_ascii_lowercase`).
pub open spec fn ascii_lower(s: Seq<char>) -> Seq<char> {
    s.map_values(|c: char| ascii_lower_char(c))
}

/// The pieces of `s` between occurrences of `sep`, as `str::split` yields them.
pub open spec fn split_on(s: Seq<char>, sep: char) -> Seq<Seq<char>>
    decreases s.len(),
{
    if s.len() == 0 {
        seq![Seq::<char>::empty()]
    } else {
        let pieces = split_on(s.drop_last(), sep);
        if s.last() == sep {
            pieces.push(Seq::<char>::empty())
        } else {
            pieces.update(pieces.len() - 1, pieces.last().push(s.last()))
        }
    }
}

/// The pieces joined with `sep` between neighbours.
pub open spec fn join_with(parts: Seq<Seq<char>>, sep: char) -> Seq<char>
    decreases parts.len(),
{
    if parts.len() == 0 {
        Seq::<char>::empty()
    } else if parts.len() == 1 {
        parts[0]
    } else {
        join_with(parts.drop_last(), sep).push(sep) + parts.last()
    }
}

/// Lexicographic order on character sequences by code point.
pub open spec fn lex_le(a: Seq<char>, b: Seq<char>) -> bool
    decreases a.len(),
{
    if a.len() == 0 {
        true
    } else if b.len() == 0 {
        false
    } else if (a[0] as u32) < (b[0] as u32) {
        true
    } else if a[0] == b[0] {
        lex_le(a.drop_first(), b.drop_first())
    } else {
        false
    }
}

/// Every element is lexicographically at most each later one.
pub open spec fn is_lex_sorted(s: Seq<Seq<char>>) -> bool {
    forall|i: int, j: int| 0 <= i < j < s.len() ==> lex_le(#[trigger] s[i], #[trigger] s[j])
}

/// The decimal digit for `d < 10`.
pub open spec fn digit_char(d: nat) -> char {
    ((d + 48) as u32) as char
}

/// The decimal representation of `n`, without leading zeros.
pub open spec fn decimal(n: nat) -> Seq<char>
    decreases n,
{
    if n < 10 {
        seq![digit_char(n)]
    } else {
        decimal(n / 10).push(digit_char(n % 10))
    }
}

// ---------------------------------------------------------------------------
// Lemmas
// ---------------------------------------------------------------------------

proof fn lemma_lex_le_refl(a: Seq<char>)
    ensures
        lex_le(a, a),
    decreases a.len(),
{
    if a.len() > 0 {
        lemma_lex_le_refl(a.drop_first());
    }
}

proof fn lemma_lex_le_total(a: Seq<char>, b: Seq<char>)
    ensures
        lex_le(a, b) || lex_le(b, a),
    decreases a.len(),
{
    if a.len() > 0 && b.len() > 0 {
        if a[0] == b[0] {
            lemma_lex_le_total(a.drop_first(), b.drop_first());
        } else {
            vstd::utf8::char_u32_cast(a[0], a[0] as u32);
            vstd::utf8::char_u32_cast(b[0], b[0] as u32);
            assert((a[0] as u32) != (b[0] as u32));
        }
    }
}

proof fn lemma_lex_le_trans(a: Seq<char>, b: Seq<char>, c: Seq<char>)
    requires
        lex_le(a, b),
        lex_le(b, c),
    ensures
        lex_le(a, c),
    decreases a.len(),
{
    if a.len() > 0 && b.len() > 0 && c.len() > 0 && a[0] == b[0] && b[0] == c[0] {
        lemma_lex_le_trans(a.drop_first(), b.drop_first(), c.drop_first());
    }
}

proof fn lemma_lex_le_antisym(a: Seq<char>, b: Seq<char>)
    requires
        lex_le(a, b),
        lex_le(b, a),
    ensures
        a == b,
    decreases a.len(),
{
    if a.len() == 0 {
        assert(b.len() == 0);
        assert(a =~= b);
    } else {
        assert(b.len() > 0);
        assert(a[0] == b[0]);
        lemma_lex_le_antisym(a.drop_first(), b.drop_first());
        assert(a =~= seq![a[0]] + a.drop_first());
        assert(b =~= seq![b[0]] + b.drop_first());
    }
}

// ---------------------------------------------------------------------------
// Executable operations
// ---------------------------------------------------------------------------

/// Appends one character (`String::push`).
#[verifier::external_body]
pub fn push_char(s: &mut String, c: char)
    ensures
        final(s)@ == old(s)@.push(c),
{
    s.push(c);
}

/// The characters of `s`, in order.
pub fn chars_of(s: &str) -> (r: Vec<char>)
    ensures
        r@ == s@,
{
    broadcast use vstd::string::group_string_axioms;

    let mut v: Vec<char> = Vec::new();
    for c in it: s.chars()
        invariant
            v@ == it.history(),
    {
        v.push(c);
    }
    v
}

/// A string holding exactly the characters of `v`.
pub fn string_from_chars(v: &[char]) -> (r: String)
    ensures
        r@ == v@,
{
    let mut s = String::new();
    let mut i: usize = 0;
    while i < v.len()
        invariant
            i <= v.len(),
            s@ == v@.take(i as int),
        decreases v.len() - i,
    {
        push_char(&mut s, v[i]);
        i = i + 1;
        assert(s@ =~= v@.take(i as int));
    }
    assert(v@.take(v.len() as int) =~= v@);
    s
}

/// `a` followed by `b`.
pub fn concat_str(a: &str, b: &str) -> (r: String)
    ensures
        r@ == a@ + b@,
{
    let mut s = String::from_str(a);
    s.append(b);
    s
}

/// Whether two character sequences are equal.
pub fn chars_equal(a: &[char], b: &[char]) -> (r: bool)
    ensures
        r == (a@ == b@),
{
    if a.len() != b.len() {
        return false;
    }
    let mut i: usize = 0;
    while i < a.len()
        invariant
            a.len() == b.len(),
            i <= a.len(),
            forall|j: int| 0 <= j < i ==> a@[j] == b@[j],
        decreases a.len() - i,
    {
        if a[i] != b[i] {
            return false;
        }
        i = i + 1;
    }
    assert(a@ =~= b@);
    true
}

/// `char::is_whitespace`.
pub fn is_white_space_char(c: char) -> (r: bool)
    ensures
        r == is_white_space(c),
{
    let u = c as u32;
    (0x9 <= u && u <= 0xD) || u == 0x20 || u == 0x85 || u == 0xA0 || u == 0x1680 || (0x2000
        <= u && u <= 0x200A) || u == 0x2028 || u == 0x2029 || u == 0x202F || u == 0x205F || u
        == 0x3000
}

proof fn lemma_trim_start_skip(s: Seq<char>, i: int)
    requires
        0 <= i <= s.len(),
        forall|j: int| 0 <= j < i ==> is_white_space(#[trigger] s[j]),
    ensures
        trim_start(s) == trim_start(s.skip(i)),
    decreases i,
{
    if i > 0 {
        assert(s.drop_first().skip(i - 1) =~= s.skip(i));
        lemma_trim_start_skip(s.drop_first(), i - 1);
    } else {
        assert(s.skip(0) =~= s);
    }
}

proof fn lemma_trim_end_take(s: Seq<char>, i: int)
    requires
        0 <= i <= s.len(),
        forall|j: int| i <= j < s.len() ==> is_white_space(#[trigger] s[j]),
    ensures
        trim_end(s) == trim_end(s.take(i)),
    decreases s.len() - i,
{
    if i < s.len() {
        assert(s.drop_last().take(i) =~= s.take(i));
        lemma_trim_end_take(s.drop_last(), i);
    } else {
        assert(s.take(i) =~= s);
    }
}

/// The characters of `v` between its leading and trailing white space.
pub fn trim_chars(v: &[char]) -> (r: Vec<char>)
    ensures
        r@ == trim(v@),
{
    let mut start: usize = 0;
    while start < v.len() && is_white_space_char(v[start])
        invariant
            start <= v.len(),
            forall|j: int| 0 <= j < start ==> is_white_space(#[trigger] v@[j]),
        decreases v.len() - start,
    {
        start = start + 1;
    }
    proof {
        lemma_trim_start_skip(v@, start as int);
    }
    let ghost rest = v@.skip(start as int);
    assert(start == v.len() || !is_white_space(rest[0]));
    assert(trim_start(rest) == rest);
    let mut end: usize = v.len();
    while end > start && is_white_space_char(v[end - 1])
        invariant
            start <= end <= v.len(),
            forall|j: int| end <= j < v.len() ==> is_white_space(#[trigger] v@[j]),
        decreases end,
    {
        end = end - 1;
    }
    proof {
        let k = (end - start) as int;
        assert forall|j: int| k <= j < rest.len() implies is_white_space(#[trigger] rest[j]) by {
            assert(rest[j] == v@[j + start]);
        }
        lemma_trim_end_take(rest, k);
        let t = rest.take(k);
        assert(k == 0 || !is_white_space(t.last())) by {
            if k > 0 {
                assert(t.last() == v@[end - 1]);
            }
        }
        assert(trim_end(t) == t);
        assert(t =~= v@.subrange(start as int, end as int));
    }
    let mut out: Vec<char> = Vec::new();
    let mut i: usize = start;
    while i < end
        invariant
            start <= i <= end <= v.len(),
            out@ == v@.subrange(start as int, i as int),
        decreases end - i,
    {
        out.push(v[i]);
        i = i + 1;
        assert(out@ =~= v@.subrange(start as int, i as int));
    }
    out
}

/// `s.trim()` as an owned string.
pub fn trim_str(s: &str) -> (r: String)
    ensures
        r@ == trim(s@),
{
    let v = chars_of(s);
    let t = trim_chars(v.as_slice());
    string_from_chars(t.as_slice())
}

/// `char::to_ascii_lowercase`.
pub fn ascii_lower_one(c: char) -> (r: char)
    ensures
        r == ascii_lower_char(c),
{
    if 'A' <= c && c <= 'Z' {
        let b = (c as u32 + 32) as u8;
        proof {
            assert((b as char) as u32 == (c as u32) + 32);
        }
        b as char
    } else {
        c
    }
}

/// The characters of `v` with ASCII upper-case letters lowered.
pub fn ascii_lower_chars(v: &[char]) -> (r: Vec<char>)
    ensures
        r@ == ascii_lower(v@),
{
    let mut out: Vec<char> = Vec::new();
    let mut i: usize = 0;
    while i < v.len()
        invariant
            i <= v.len(),
            out@ == ascii_lower(v@.take(i as int)),
        decreases v.len() - i,
    {
        out.push(ascii_lower_one(v[i]));
        i = i + 1;
        assert(out@ =~= ascii_lower(v@.take(i as int)));
    }
    assert(v@.take(v.len() as int) =~= v@);
    out
}

/// The pieces of `v` between occurrences of `sep`.
pub fn split_chars(v: &[char], sep: char) -> (r: Vec<Vec<char>>)
    ensures
        r@.len() == split_on(v@, sep).len(),
        forall|k: int| 0 <= k < r@.len() ==> (#[trigger] r@[k])@ == split_on(v@, sep)[k],
{
    let mut done: Vec<Vec<char>> = Vec::new();
    let mut cur: Vec<char> = Vec::new();
    let mut i: usize = 0;
    assert(v@.take(0) =~= Seq::<char>::empty());
    while i < v.len()
        invariant
            i <= v.len(),
            done@.len() + 1 == split_on(v@.take(i as int), sep).len(),
            forall|k: int|
                0 <= k < done@.len() ==> (#[trigger] done@[k])@ == split_on(
                    v@.take(i as int),
                    sep,
                )[k],
            cur@ == split_on(v@.take(i as int), sep).last(),
        decreases v.len() - i,
    {
        let ghost before = v@.take(i as int);
        let ghost after = v@.take(i + 1);
        assert(after.drop_last() =~= before);
        assert(after.last() == v@[i as int]);
        let c = v[i];
        if c == sep {
            let finished = cur;
            done.push(finished);
            cur = Vec::new();
        } else {
            cur.push(c);
        }
        i = i + 1;
    }
    assert(v@.take(v.len() as int) =~= v@);
    done.push(cur);
    done
}

/// The pieces joined with `sep` between neighbours.
pub fn join_chars(parts: &Vec<Vec<char>>, sep: char) -> (r: Vec<char>)
    ensures
        r@ == join_with(parts@.map_values(|p: Vec<char>| p@), sep),
{
    let ghost views = parts@.map_values(|p: Vec<char>| p@);
    let mut out: Vec<char> = Vec::new();
    let mut i: usize = 0;
    while i < parts.len()
        invariant
            i <= parts.len(),
            views == parts@.map_values(|p: Vec<char>| p@),
            out@ == join_with(views.take(i as int), sep),
        decreases parts.len() - i,
    {
        let ghost pre = out@;
        if i > 0 {
            out.push(sep);
        }
        let part = &parts[i];
        let mut j: usize = 0;
        while j < part.len()
            invariant
                j <= part.len(),
                i < parts.len(),
                part == parts@[i as int],
                out@ == (if i > 0 {
                    pre.push(sep)
                } else {
                    pre
                }) + part@.take(j as int),
            decreases part.len() - j,
        {
            out.push(part[j]);
            j = j + 1;
            assert(part@.take(j as int) =~= part@.take(j - 1).push(part@[j - 1]));
        }
        proof {
            assert(part@.take(part.len() as int) =~= part@);
            let t = views.take(i + 1);
            assert(t.drop_last() =~= views.take(i as int));
            assert(t.last() == part@);
            if i == 0 {
                assert(pre =~= Seq::<char>::empty());
                assert(out@ =~= t[0]);
            }
        }
        i = i + 1;
    }
    assert(views.take(parts.len() as int) =~= views);
    out
}

/// Whether `a` precedes or equals `b` lexicographically.
pub fn chars_lex_le(a: &[char], b: &[char]) -> (r: bool)
    ensures
        r == lex_le(a@, b@),
{
    let mut i: usize = 0;
    assert(a@.skip(0) =~= a@);
    assert(b@.skip(0) =~= b@);
    while i < a.len() && i < b.len() && a[i] == b[i]
        invariant
            i <= a.len(),
            i <= b.len(),
            lex_le(a@, b@) == lex_le(a@.skip(i as int), b@.skip(i as int)),
        decreases a.len() - i,
    {
        proof {
            let sa = a@.skip(i as int);
            let sb = b@.skip(i as int);
            assert(sa.drop_first() =~= a@.skip(i + 1));
            assert(sb.drop_first() =~= b@.skip(i + 1));
        }
        i = i + 1;
    }
    if i == a.len() {
        true
    } else if i == b.len() {
        false
    } else {
        (a[i] as u32) < (b[i] as u32)
    }
}

/// The parts of `v` rearranged into lexicographic order.
pub fn sort_lex(v: Vec<Vec<char>>) -> (r: Vec<Vec<char>>)
    ensures
        r@.map_values(|p: Vec<char>| p@).to_multiset() == v@.map_values(
            |p: Vec<char>| p@,
        ).to_multiset(),
        is_lex_sorted(r@.map_values(|p: Vec<char>| p@)),
{
    broadcast use vstd::seq_lib::group_to_multiset_ensures;

    let ghost src = v@.map_values(|p: Vec<char>| p@);
    let mut out: Vec<Vec<char>> = Vec::new();
    let mut i: usize = 0;
    assert(src.take(0) =~= Seq::<Seq<char>>::empty());
    assert(out@.map_values(|p: Vec<char>| p@) =~= Seq::<Seq<char>>::empty());
    while i < v.len()
        invariant
            i <= v.len(),
            src == v@.map_values(|p: Vec<char>| p@),
            out@.map_values(|p: Vec<char>| p@).to_multiset() == src.take(i as int).to_multiset(),
            is_lex_sorted(out@.map_values(|p: Vec<char>| p@)),
        decreases v.len() - i,
    {
        let x = copy_chars(v[i].as_slice());
        let ghost o = out@.map_values(|p: Vec<char>| p@);
        let mut p: usize = 0;
        while p < out.len() && chars_lex_le(out[p].as_slice(), x.as_slice())
            invariant
                p <= out.len(),
                o == out@.map_values(|q: Vec<char>| q@),
                forall|k: int| 0 <= k < p ==> lex_le(#[trigger] o[k], x@),
            decreases out.len() - p,
        {
            p = p + 1;
        }
        proof {
            if p < out.len() {
                lemma_lex_le_total(o[p as int], x@);
            }
        }
        out.insert(p, x);
        proof {
            let n = out@.map_values(|q: Vec<char>| q@);
            assert(n =~= o.insert(p as int, x@));
            assert(n.remove(p as int) =~= o);
            assert(n[p as int] == x@);
            assert(n.contains(x@));
            n.to_multiset_ensures();
            vstd::seq_lib::to_multiset_remove(n, p as int);
            assert(n.to_multiset().count(x@) > 0);
            assert(n.to_multiset() =~= o.to_multiset().insert(x@));
            assert(src[i as int] == v@[i as int]@);
            assert(x@ == src[i as int]);
            assert(src.take(i + 1) =~= src.take(i as int).push(src[i as int]));
            vstd::seq_lib::to_multiset_build(src.take(i as int), src[i as int]);
            assert(n.to_multiset() == src.take(i + 1).to_multiset());
            assert forall|a: int, b: int| 0 <= a < b < n.len() implies lex_le(
                #[trigger] n[a],
                #[trigger] n[b],
            ) by {
                if a < p && b < p {
                    assert(lex_le(o[a], o[b]));
                } else if a < p && b == p {
                } else if a < p && b > p {
                    assert(n[b] == o[b - 1]);
                    lemma_lex_le_total(o[p as int], x@);
                    assert(lex_le(x@, o[p as int]));
                    if b - 1 > p {
                        assert(lex_le(o[p as int], o[b - 1]));
                        lemma_lex_le_trans(x@, o[p as int], o[b - 1]);
                    }
                    lemma_lex_le_trans(o[a], x@, o[b - 1]);
                } else if a == p {
                    assert(n[b] == o[b - 1]);
                    lemma_lex_le_total(o[p as int], x@);
                    if b - 1 > p {
                        assert(lex_le(o[p as int], o[b - 1]));
                        lemma_lex_le_trans(x@, o[p as int], o[b - 1]);
                    }
                } else {
                    assert(n[a] == o[a - 1] && n[b] == o[b - 1]);
                    assert(lex_le(o[a - 1], o[b - 1]));
                }
            }
        }
        i = i + 1;
    }
    proof {
        assert(src.take(v.len() as int) =~= src);
    }
    out
}

/// A fresh vector holding the characters of `v`.
pub fn copy_chars(v: &[char]) -> (r: Vec<char>)
    ensures
        r@ == v@,
{
    let mut out: Vec<char> = Vec::new();
    let mut i: usize = 0;
    while i < v.len()
        invariant
            i <= v.len(),
            out@ == v@.take(i as int),
        decreases v.len() - i,
    {
        out.push(v[i]);
        i = i + 1;
        assert(out@ =~= v@.take(i as int));
    }
    assert(v@.take(v.len() as int) =~= v@);
    out
}

/// The decimal representation of `n`.
pub fn decimal_string(n: u64) -> (r: String)
    ensures
        r@ == decimal(n as nat),
    decreases n,
{
    let d = (n % 10) as u8;
    let c = (d + 48) as char;
    proof {
        assert((c as u32) == (n % 10) + 48);
    }
    if n < 10 {
        let mut s = String::new();
        push_char(&mut s, c);
        assert(s@ =~= seq![digit_char(n as nat)]);
        s
    } else {
        let mut s = decimal_string(n / 10);
        push_char(&mut s, c);
        s
    }
}


/// The lexicographically sorted arrangement of `parts` (see
/// `lemma_sorted_arrangement_unique` for why it is well defined).
pub open spec fn sorted_arrangement(parts: Seq<Seq<char>>) -> Seq<Seq<char>> {
    choose|q: Seq<Seq<char>>| q.to_multiset() == parts.to_multiset() && is_lex_sorted(q)
}

/// Two sorted sequences with the same elements are equal.
pub proof fn lemma_sorted_unique(p: Seq<Seq<char>>, q: Seq<Seq<char>>)
    requires
        p.to_multiset() == q.to_multiset(),
        is_lex_sorted(p),
        is_lex_sorted(q),
    ensures
        p == q,
    decreases p.len(),
{
    broadcast use vstd::seq_lib::group_to_multiset_ensures;

    p.to_multiset_ensures();
    q.to_multiset_ensures();
    if p.len() == 0 {
        assert(q.len() == 0);
        assert(p =~= q);
    } else {
        assert(q.len() == p.len());
        assert(p.contains(p[0]));
        assert(q.to_multiset().count(p[0]) > 0);
        assert(q.contains(p[0]));
        let k = choose|k: int| 0 <= k < q.len() && q[k] == p[0];
        if k > 0 {
            assert(lex_le(q[0], q[k]));
        } else {
            lemma_lex_le_refl(q[0]);
        }
        assert(q.contains(q[0]));
        assert(p.to_multiset().count(q[0]) > 0);
        assert(p.contains(q[0]));
        let m = choose|m: int| 0 <= m < p.len() && p[m] == q[0];
        if m > 0 {
            assert(lex_le(p[0], p[m]));
        } else {
            lemma_lex_le_refl(p[0]);
        }
        lemma_lex_le_antisym(p[0], q[0]);
        vstd::seq_lib::to_multiset_remove(p, 0);
        vstd::seq_lib::to_multiset_remove(q, 0);
        assert(p.remove(0) =~= p.drop_first());
        assert(q.remove(0) =~= q.drop_first());
        let p1 = p.drop_first();
        let q1 = q.drop_first();
        assert(is_lex_sorted(p1)) by {
            assert forall|i: int, j: int| 0 <= i < j < p1.len() implies lex_le(
                #[trigger] p1[i],
                #[trigger] p1[j],
            ) by {
                assert(p1[i] == p[i + 1] && p1[j] == p[j + 1]);
            }
        }
        assert(is_lex_sorted(q1)) by {
            assert forall|i: int, j: int| 0 <= i < j < q1.len() implies lex_le(
                #[trigger] q1[i],
                #[trigger] q1[j],
            ) by {
                assert(q1[i] == q[i + 1] && q1[j] == q[j + 1]);
            }
        }
        lemma_sorted_unique(p1, q1);
        assert(p =~= q) by {
            assert forall|i: int| 0 <= i < p.len() implies p[i] == q[i] by {
                if i > 0 {
                    assert(p[i] == p1[i - 1]);
                    assert(q[i] == q1[i - 1]);
                }
            }
        }
    }
}

/// A sorted rearrangement of `parts` is the sorted arrangement.
pub proof fn lemma_sorted_arrangement_unique(parts: Seq<Seq<char>>, q: Seq<Seq<char>>)
    requires
        q.to_multiset() == parts.to_multiset(),
        is_lex_sorted(q),
    ensures
        sorted_arrangement(parts) == q,
{
    let r = sorted_arrangement(parts);
    assert(r.to_multiset() == parts.to_multiset() && is_lex_sorted(r));
    lemma_sorted_unique(r, q);
}

/// The pieces joined with `sep` between neighbours.
pub open spec fn join_seqs(parts: Seq<Seq<char>>, sep: Seq<char>) -> Seq<char>
    decreases parts.len(),
{
    if parts.len() == 0 {
        Seq::<char>::empty()
    } else if parts.len() == 1 {
        parts[0]
    } else {
        join_seqs(parts.drop_last(), sep) + sep + parts.last()
    }
}

/// `needle` occurs somewhere in `hay`.
pub open spec fn mentions(hay: Seq<char>, needle: Seq<char>) -> bool {
    exists|i: int|
        0 <= i && i + needle.len() <= hay.len() && #[trigger] hay.subrange(i, i + needle.len())
            == needle
}

/// A text made of `a`, then `needle`, then `b` mentions `needle`.
pub proof fn lemma_mentions_middle(a: Seq<char>, needle: Seq<char>, b: Seq<char>)
    ensures
        mentions(a + needle + b, needle),
{
    let hay = a + needle + b;
    assert(hay.subrange(a.len() as int, (a.len() + needle.len()) as int) =~= needle);
}

/// The strings of `parts` joined with `sep` between neighbours.
pub fn join_strings(parts: &Vec<String>, sep: &str) -> (r: String)
    ensures
        r@ == join_seqs(parts@.map_values(|p: String| p@), sep@),
{
    let ghost views = parts@.map_values(|p: String| p@);
    let mut out = String::new();
    let mut i: usize = 0;
    while i < parts.len()
        invariant
            i <= parts.len(),
            views == parts@.map_values(|p: String| p@),
            out@ == join_seqs(views.take(i as int), sep@),
        decreases parts.len() - i,
    {
        let ghost pre = out@;
        if i > 0 {
            out.append(sep);
        }
        out.append(parts[i].as_str());
        proof {
            let t = views.take(i + 1);
            assert(t.drop_last() =~= views.take(i as int));
            assert(t.last() == parts@[i as int]@);
            if i == 0 {
                assert(pre =~= Seq::<char>::empty());
                assert(out@ =~= t[0]);
            }
        }
        i = i + 1;
    }
    assert(views.take(parts.len() as int) =~= views);
    out
}
// ---------------------------------------------------------------------------
// Splitting, joining and sorting lemmas
// ---------------------------------------------------------------------------

/// Every sequence of texts has a sorted arrangement.
pub proof fn lemma_sorted_arrangement_exists(parts: Seq<Seq<char>>)
    ensures
        sorted_arrangement(parts).to_multiset() == parts.to_multiset(),
        is_lex_sorted(sorted_arrangement(parts)),
{
    let leq = |a: Seq<char>, b: Seq<char>| lex_le(a, b);
    assert(vstd::relations::total_ordering(leq)) by {
        assert forall|x: Seq<char>| #[trigger] leq(x, x) by {
            lemma_lex_le_refl(x);
        }
        assert forall|x: Seq<char>, y: Seq<char>| #[trigger] leq(x, y) && #[trigger] leq(y, x)
            implies x == y by {
            lemma_lex_le_antisym(x, y);
        }
        assert forall|x: Seq<char>, y: Seq<char>, z: Seq<char>|
            #[trigger] leq(x, y) && #[trigger] leq(y, z) implies leq(x, z) by {
            lemma_lex_le_trans(x, y, z);
        }
        assert forall|x: Seq<char>, y: Seq<char>| #[trigger] leq(x, y) || #[trigger] leq(y, x) by {
            lemma_lex_le_total(x, y);
        }
    }
    parts.lemma_sort_by_ensures(leq);
    let q = parts.sort_by(leq);
    assert(is_lex_sorted(q)) by {
        assert forall|i: int, j: int| 0 <= i < j < q.len() implies lex_le(
            #[trigger] q[i],
            #[trigger] q[j],
        ) by {
            assert(leq(q[i], q[j]));
        }
    }
    lemma_sorted_arrangement_unique(parts, q);
}

/// Two sequences of texts with the same elements have the same sorted
/// arrangement.
pub proof fn lemma_sorted_arrangement_of_same_elements(p: Seq<Seq<char>>, q: Seq<Seq<char>>)
    requires
        p.to_multiset() == q.to_multiset(),
    ensures
        sorted_arrangement(p) == sorted_arrangement(q),
{
    lemma_sorted_arrangement_exists(p);
    lemma_sorted_arrangement_exists(q);
    lemma_sorted_unique(sorted_arrangement(p), sorted_arrangement(q));
}

/// Splitting yields at least one piece.
pub proof fn lemma_split_nonempty(s: Seq<char>, sep: char)
    ensures
        split_on(s, sep).len() >= 1,
    decreases s.len(),
{
    if s.len() > 0 {
        lemma_split_nonempty(s.drop_last(), sep);
    }
}

/// No piece of a split holds the separator.
pub proof fn lemma_split_pieces_lack_sep(s: Seq<char>, sep: char)
    ensures
        forall|i: int|
            0 <= i < split_on(s, sep).len() ==> !(#[trigger] split_on(s, sep)[i]).contains(sep),
    decreases s.len(),
{
    if s.len() > 0 {
        lemma_split_pieces_lack_sep(s.drop_last(), sep);
        lemma_split_nonempty(s.drop_last(), sep);
        let pieces = split_on(s.drop_last(), sep);
        if s.last() != sep {
            let grown = pieces.last().push(s.last());
            assert(!grown.contains(sep)) by {
                if grown.contains(sep) {
                    let k = choose|k: int| 0 <= k < grown.len() && grown[k] == sep;
                    assert(pieces.last()[k] == sep);
                    assert(pieces[pieces.len() - 1].contains(sep));
                }
            }
        }
    }
}

/// A text without the separator is a single piece.
pub proof fn lemma_split_without_sep(s: Seq<char>, sep: char)
    requires
        !s.contains(sep),
    ensures
        split_on(s, sep) == seq![s],
    decreases s.len(),
{
    if s.len() > 0 {
        assert(!s.drop_last().contains(sep)) by {
            if s.drop_last().contains(sep) {
                let k = choose|k: int| 0 <= k < s.drop_last().len() && s.drop_last()[k] == sep;
                assert(s[k] == sep);
            }
        }
        lemma_split_without_sep(s.drop_last(), sep);
        assert(s.last() != sep) by {
            assert(s[s.len() - 1] == s.last());
        }
        assert(s.drop_last().push(s.last()) =~= s);
        assert(split_on(s, sep) =~= seq![s]);
    } else {
        assert(s =~= Seq::<char>::empty());
        assert(split_on(s, sep) =~= seq![s]);
    }
}

/// Splitting `x`, a separator and `y` gives the pieces of `x` followed by
/// those of `y`.
pub proof fn lemma_split_concat(x: Seq<char>, y: Seq<char>, sep: char)
    ensures
        split_on(x.push(sep) + y, sep) == split_on(x, sep) + split_on(y, sep),
    decreases y.len(),
{
    let s = x.push(sep) + y;
    if y.len() == 0 {
        assert(s =~= x.push(sep));
        assert(s.drop_last() =~= x);
        assert(split_on(s, sep) =~= split_on(x, sep) + split_on(y, sep));
    } else {
        assert(s.drop_last() =~= x.push(sep) + y.drop_last());
        assert(s.last() == y.last());
        lemma_split_concat(x, y.drop_last(), sep);
        lemma_split_nonempty(y.drop_last(), sep);
        let a = split_on(x, sep);
        let b = split_on(y.drop_last(), sep);
        if y.last() == sep {
            assert(split_on(s, sep) =~= a + b.push(Seq::<char>::empty()));
        } else {
            assert((a + b).last() == b.last());
            assert((a + b).update((a + b).len() - 1, (a + b).last().push(s.last())) =~= a
                + b.update(b.len() - 1, b.last().push(y.last())));
        }
    }
}

/// Splitting a join of pieces without the separator gives the pieces back.
pub proof fn lemma_split_join(parts: Seq<Seq<char>>, sep: char)
    requires
        parts.len() >= 1,
        forall|i: int| 0 <= i < parts.len() ==> !(#[trigger] parts[i]).contains(sep),
    ensures
        split_on(join_with(parts, sep), sep) == parts,
    decreases parts.len(),
{
    if parts.len() == 1 {
        lemma_split_without_sep(parts[0], sep);
        assert(parts =~= seq![parts[0]]);
    } else {
        let front = parts.drop_last();
        assert forall|i: int| 0 <= i < front.len() implies !(#[trigger] front[i]).contains(sep) by {
            assert(front[i] == parts[i]);
        }
        lemma_split_join(front, sep);
        lemma_split_concat(join_with(front, sep), parts.last(), sep);
        assert(!parts[parts.len() - 1].contains(sep));
        lemma_split_without_sep(parts.last(), sep);
        assert(front + seq![parts.last()] =~= parts);
    }
}

/// Trimming keeps only characters of the text.
pub proof fn lemma_trim_keeps_chars(s: Seq<char>, c: char)
    requires
        trim(s).contains(c),
    ensures
        s.contains(c),
{
    lemma_trim_end_keeps_chars(trim_start(s), c);
    lemma_trim_start_keeps_chars(s, c);
}

proof fn lemma_trim_start_keeps_chars(s: Seq<char>, c: char)
    requires
        trim_start(s).contains(c),
    ensures
        s.contains(c),
    decreases s.len(),
{
    if s.len() > 0 && is_white_space(s[0]) {
        lemma_trim_start_keeps_chars(s.drop_first(), c);
        let k = choose|k: int| 0 <= k < s.drop_first().len() && s.drop_first()[k] == c;
        assert(s[k + 1] == c);
    }
}

proof fn lemma_trim_end_keeps_chars(s: Seq<char>, c: char)
    requires
        trim_end(s).contains(c),
    ensures
        s.contains(c),
    decreases s.len(),
{
    if s.len() > 0 && is_white_space(s.last()) {
        lemma_trim_end_keeps_chars(s.drop_last(), c);
        let k = choose|k: int| 0 <= k < s.drop_last().len() && s.drop_last()[k] == c;
        assert(s[k] == c);
    }
}

proof fn lemma_trim_start_shape(s: Seq<char>)
    ensures
        trim_start(s).len() == 0 || !is_white_space(trim_start(s)[0]),
    decreases s.len(),
{
    if s.len() > 0 && is_white_space(s[0]) {
        lemma_trim_start_shape(s.drop_first());
    }
}

proof fn lemma_trim_end_shape(s: Seq<char>)
    ensures
        trim_end(s).len() == 0 || !is_white_space(trim_end(s).last()),
        trim_end(s).len() <= s.len(),
        trim_end(s) == s.take(trim_end(s).len() as int),
    decreases s.len(),
{
    if s.len() > 0 && is_white_space(s.last()) {
        lemma_trim_end_shape(s.drop_last());
        assert(s.drop_last().take(trim_end(s).len() as int) =~= s.take(trim_end(s).len() as int));
    } else {
        assert(s.take(s.len() as int) =~= s);
    }
}

/// Trimming twice is trimming once.
pub proof fn lemma_trim_idempotent(s: Seq<char>)
    ensures
        trim(trim(s)) == trim(s),
{
    let t = trim_start(s);
    let y = trim_end(t);
    lemma_trim_start_shape(s);
    lemma_trim_end_shape(t);
    if y.len() > 0 {
        assert(y[0] == t.take(y.len() as int)[0]);
        assert(y[0] == t[0]);
    }
    assert(trim_start(y) == y);
    lemma_trim_end_shape(y);
    assert(trim_end(y) == y);
}

} // verus!
