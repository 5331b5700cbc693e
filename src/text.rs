use vstd::prelude::*;
use vstd::string::StrSliceExecFns;
use vstd::std_specs::iter::IteratorSpec;

verus! {

/// Strict lexicographic order on character sequences, comparing characters
/// by code point (the order of `Ord` on `String`).
pub open spec fn lex_lt(a: Seq<char>, b: Seq<char>) -> bool
    decreases a.len(),
{
    if a.len() == 0 {
        b.len() > 0
    } else if b.len() == 0 {
        false
    } else if a[0] == b[0] {
        lex_lt(a.drop_first(), b.drop_first())
    } else {
        a[0] < b[0]
    }
}

/// Strictly increasing, hence sorted and free of duplicates.
pub open spec fn sorted_unique(s: Seq<Seq<char>>) -> bool {
    forall|i: int, j: int| 0 <= i < j < s.len() ==> lex_lt(#[trigger] s[i], #[trigger] s[j])
}

/// No value occurs twice.
pub open spec fn no_duplicates(s: Seq<Seq<char>>) -> bool {
    forall|i: int, j: int| 0 <= i < j < s.len() ==> #[trigger] s[i] != #[trigger] s[j]
}

/// The character sequences of a sequence of strings.
pub open spec fn texts(v: Seq<String>) -> Seq<Seq<char>> {
    v.map_values(|x: String| x@)
}

pub proof fn lemma_lex_lt_irreflexive(a: Seq<char>)
    ensures
        !lex_lt(a, a),
    decreases a.len(),
{
    if a.len() > 0 {
        lemma_lex_lt_irreflexive(a.drop_first());
    }
}

pub proof fn lemma_lex_lt_transitive(a: Seq<char>, b: Seq<char>, c: Seq<char>)
    requires
        lex_lt(a, b),
        lex_lt(b, c),
    ensures
        lex_lt(a, c),
    decreases a.len(),
{
    if a.len() > 0 && b.len() > 0 && c.len() > 0 && a[0] == b[0] && b[0] == c[0] {
        lemma_lex_lt_transitive(a.drop_first(), b.drop_first(), c.drop_first());
    }
}

pub proof fn lemma_lex_lt_total(a: Seq<char>, b: Seq<char>)
    ensures
        a == b || lex_lt(a, b) || lex_lt(b, a),
    decreases a.len(),
{
    if a.len() > 0 && b.len() > 0 && a[0] == b[0] {
        lemma_lex_lt_total(a.drop_first(), b.drop_first());
        if a.drop_first() == b.drop_first() {
            assert(a =~= seq![a[0]] + a.drop_first());
            assert(b =~= seq![b[0]] + b.drop_first());
        }
    } else if a.len() == 0 && b.len() == 0 {
        assert(a =~= b);
    }
}

/// A strictly increasing sequence holds no value twice.
pub proof fn lemma_sorted_unique_no_duplicates(s: Seq<Seq<char>>)
    requires
        sorted_unique(s),
    ensures
        no_duplicates(s),
{
    assert forall|i: int, j: int| 0 <= i < j < s.len() implies #[trigger] s[i] != #[trigger] s[j] by {
        lemma_lex_lt_irreflexive(s[i]);
    }
}

/// Decides `lex_lt(a@, b@)`.
pub fn text_lt(a: &str, b: &str) -> (r: bool)
    ensures
        r == lex_lt(a@, b@),
{
    let la = a.unicode_len();
    let lb = b.unicode_len();
    let mut i: usize = 0;
    assert(a@.skip(0) =~= a@);
    assert(b@.skip(0) =~= b@);
    while i < la && i < lb
        invariant
            i <= la,
            i <= lb,
            la == a@.len(),
            lb == b@.len(),
            lex_lt(a@, b@) == lex_lt(a@.skip(i as int), b@.skip(i as int)),
        decreases la - i,
    {
        let ca = a.get_char(i);
        let cb = b.get_char(i);
        if ca != cb {
            return ca < cb;
        }
        assert(a@.skip(i as int).drop_first() =~= a@.skip(i + 1));
        assert(b@.skip(i as int).drop_first() =~= b@.skip(i + 1));
        i = i + 1;
    }
    i == la && i < lb
}

/// Decides `a@ == b@`.
pub fn text_eq(a: &str, b: &str) -> (r: bool)
    ensures
        r == (a@ == b@),
{
    proof {
        lemma_lex_lt_total(a@, b@);
        lemma_lex_lt_irreflexive(a@);
    }
    !text_lt(a, b) && !text_lt(b, a)
}

/// Adds `s` to a strictly increasing vector of strings, keeping it strictly
/// increasing; a value already present is not added again.
pub fn insert_sorted(v: &mut Vec<String>, s: String)
    requires
        sorted_unique(texts(old(v)@)),
    ensures
        sorted_unique(texts(final(v)@)),
        texts(final(v)@).to_set() == texts(old(v)@).to_set().insert(s@),
{
    let n = v.len();
    let mut i: usize = 0;
    while i < n && text_lt(v[i].as_str(), s.as_str())
        invariant
            n == v.len(),
            i <= n,
            sorted_unique(texts(v@)),
            forall|k: int| 0 <= k < i ==> lex_lt(#[trigger] texts(v@)[k], s@),
        decreases n - i,
    {
        i = i + 1;
    }
    let ghost t0 = texts(v@);
    if i < n && text_eq(v[i].as_str(), s.as_str()) {
        assert(t0.to_set().insert(s@) =~= t0.to_set()) by {
            assert(t0[i as int] == s@);
        }
        return;
    }
    proof {
        if i < n {
            lemma_lex_lt_total(t0[i as int], s@);
        }
    }
    let ghost sv = s@;
    v.insert(i, s);
    let ghost t1 = texts(v@);
    assert(t1 =~= t0.insert(i as int, sv));
    assert forall|a: int, b: int| 0 <= a < b < t1.len() implies lex_lt(#[trigger] t1[a], #[trigger] t1[b]) by {
        if b == i {
        } else if a == i {
            assert(lex_lt(sv, t0[i as int]));
            if b > i + 1 {
                lemma_lex_lt_transitive(sv, t0[i as int], t0[b - 1]);
            }
        } else if a < i && b > i {
            assert(lex_lt(sv, t0[i as int]));
            if b > i + 1 {
                lemma_lex_lt_transitive(sv, t0[i as int], t0[b - 1]);
            }
            lemma_lex_lt_transitive(t0[a], sv, t0[b - 1]);
        } else if a > i {
        }
    }
    assert(t1.to_set() =~= t0.to_set().insert(sv)) by {
        assert forall|x: Seq<char>| t1.to_set().contains(x) implies t0.to_set().insert(sv).contains(x) by {
            let k = choose|k: int| 0 <= k < t1.len() && t1[k] == x;
            if k < i {
                assert(t0[k] == x);
            } else if k > i {
                assert(t0[k - 1] == x);
            }
        }
        assert forall|x: Seq<char>| t0.to_set().insert(sv).contains(x) implies t1.to_set().contains(x) by {
            if x == sv {
                assert(t1[i as int] == x);
            } else {
                let k = choose|k: int| 0 <= k < t0.len() && t0[k] == x;
                if k < i {
                    assert(t1[k] == x);
                } else {
                    assert(t1[k + 1] == x);
                }
            }
        }
    }
}

/// `p` is a prefix of `s`.
pub open spec fn has_prefix(s: Seq<char>, p: Seq<char>) -> bool {
    p.len() <= s.len() && s.subrange(0, p.len() as int) == p
}

/// `p` occurs in `s` starting at position `i`.
pub open spec fn occurs_at(s: Seq<char>, p: Seq<char>, i: int) -> bool {
    0 <= i && i + p.len() <= s.len() && s.subrange(i, i + p.len()) == p
}

/// `p` occurs somewhere in `s`.
pub open spec fn has_infix(s: Seq<char>, p: Seq<char>) -> bool {
    exists|i: int| occurs_at(s, p, i)
}

/// Decides `occurs_at(s@, p@, i)`.
pub fn matches_at(s: &str, p: &str, i: usize) -> (r: bool)
    ensures
        r == occurs_at(s@, p@, i as int),
{
    let ls = s.unicode_len();
    let lp = p.unicode_len();
    if i > ls || lp > ls - i {
        return false;
    }
    let mut j: usize = 0;
    while j < lp
        invariant
            ls == s@.len(),
            lp == p@.len(),
            i + lp <= ls,
            j <= lp,
            s@.subrange(i as int, i + j) == p@.subrange(0, j as int),
        decreases lp - j,
    {
        if s.get_char(i + j) != p.get_char(j) {
            assert(s@.subrange(i as int, i + lp)[j as int] == s@[i + j]);
            return false;
        }
        assert(s@.subrange(i as int, i + j + 1) =~= s@.subrange(i as int, i + j).push(s@[i + j]));
        assert(p@.subrange(0, j + 1) =~= p@.subrange(0, j as int).push(p@[j as int]));
        j = j + 1;
    }
    assert(p@.subrange(0, lp as int) =~= p@);
    true
}

/// Decides `has_prefix(s@, p@)`.
pub fn starts_with(s: &str, p: &str) -> (r: bool)
    ensures
        r == has_prefix(s@, p@),
{
    matches_at(s, p, 0)
}

/// Decides `has_infix(s@, p@)`.
pub fn contains(s: &str, p: &str) -> (r: bool)
    ensures
        r == has_infix(s@, p@),
{
    let ls = s.unicode_len();
    let lp = p.unicode_len();
    if lp > ls {
        return false;
    }
    let mut i: usize = 0;
    while i <= ls - lp
        invariant
            ls == s@.len(),
            lp == p@.len(),
            lp <= ls,
            forall|k: int| 0 <= k < i ==> !occurs_at(s@, p@, k),
        decreases ls - lp + 1 - i,
    {
        if matches_at(s, p, i) {
            return true;
        }
        if i == ls - lp {
            return false;
        }
        i = i + 1;
    }
    false
}

/// The characters of `s`, in order.
pub fn chars_of(s: &str) -> (r: Vec<char>)
    ensures
        r@ == s@,
{
    broadcast use vstd::string::group_string_axioms;
    let n = s.unicode_len();
    let mut it = s.chars();
    let mut r: Vec<char> = Vec::new();
    while r.len() < n
        invariant
            n == s@.len(),
            r@ + it.remaining() == s@,
        decreases n - r.len(),
    {
        if let Some(c) = it.next() {
            r.push(c);
        } else {
            return r;
        }
    }
    assert(r@ =~= s@);
    r
}

/// White space as `char::is_whitespace` decides it (Unicode `White_Space`).
pub open spec fn is_space(c: char) -> bool {
    c == ' ' || ('\t' <= c && c <= '\r') || c == '\u{85}' || c == '\u{a0}' || c == '\u{1680}'
        || ('\u{2000}' <= c && c <= '\u{200a}') || c == '\u{2028}' || c == '\u{2029}'
        || c == '\u{202f}' || c == '\u{205f}' || c == '\u{3000}'
}

/// Decides `is_space(c)`.
pub fn space(c: char) -> (r: bool)
    ensures
        r == is_space(c),
{
    c == ' ' || ('\t' <= c && c <= '\r') || c == '\u{85}' || c == '\u{a0}' || c == '\u{1680}'
        || ('\u{2000}' <= c && c <= '\u{200a}') || c == '\u{2028}' || c == '\u{2029}'
        || c == '\u{202f}' || c == '\u{205f}' || c == '\u{3000}'
}

/// Splitting `s` at the character `sep`, read left to right: the pieces
/// completed so far, and the piece still open at the end.
pub open spec fn split_scan(s: Seq<char>, sep: char) -> (Seq<Seq<char>>, Seq<char>)
    decreases s.len(),
{
    if s.len() == 0 {
        (seq![], seq![])
    } else {
        let (done, open) = split_scan(s.drop_last(), sep);
        if s.last() == sep {
            (done.push(open), seq![])
        } else {
            (done, open.push(s.last()))
        }
    }
}

/// The lines of `s` as `str::lines` cuts them at `'\n'`: a last line
/// without a terminator counts only where it is not empty.
pub open spec fn lines(s: Seq<char>) -> Seq<Seq<char>> {
    let (done, open) = split_scan(s, '\n');
    if open.len() > 0 {
        done.push(open)
    } else {
        done
    }
}

/// The maximal runs of non-space characters of `s`, read left to right:
/// the runs completed so far, and the run still open at the end.
pub open spec fn word_scan(s: Seq<char>) -> (Seq<Seq<char>>, Seq<char>)
    decreases s.len(),
{
    if s.len() == 0 {
        (seq![], seq![])
    } else {
        let (done, open) = word_scan(s.drop_last());
        if is_space(s.last()) {
            if open.len() > 0 {
                (done.push(open), seq![])
            } else {
                (done, seq![])
            }
        } else {
            (done, open.push(s.last()))
        }
    }
}

/// The words of `s` as `str::split_whitespace` yields them.
pub open spec fn words(s: Seq<char>) -> Seq<Seq<char>> {
    let (done, open) = word_scan(s);
    if open.len() > 0 {
        done.push(open)
    } else {
        done
    }
}

/// The character sequences of a sequence of string slices.
pub open spec fn strs(v: Seq<&str>) -> Seq<Seq<char>> {
    v.map_values(|x: &str| x@)
}

/// Decides whether `s` equals one of the entries of `table`.
pub fn is_one_of(s: &str, table: &Vec<&str>) -> (r: bool)
    ensures
        r == strs(table@).contains(s@),
{
    let mut k: usize = 0;
    while k < table.len()
        invariant
            k <= table.len(),
            forall|j: int| 0 <= j < k ==> strs(table@)[j] != s@,
        decreases table.len() - k,
    {
        if text_eq(table[k], s) {
            assert(strs(table@)[k as int] == s@);
            return true;
        }
        k = k + 1;
    }
    false
}

/// Decides whether `s` starts with one of the entries of `table`.
pub fn starts_with_one_of(s: &str, table: &Vec<&str>) -> (r: bool)
    ensures
        r == exists|j: int| 0 <= j < table@.len() && has_prefix(s@, #[trigger] strs(table@)[j]),
{
    let mut k: usize = 0;
    while k < table.len()
        invariant
            k <= table.len(),
            forall|j: int| 0 <= j < k ==> !has_prefix(s@, #[trigger] strs(table@)[j]),
        decreases table.len() - k,
    {
        if starts_with(s, table[k]) {
            assert(has_prefix(s@, strs(table@)[k as int]));
            return true;
        }
        k = k + 1;
    }
    false
}

/// Decides whether one of the entries of `table` occurs in `a` or in `b`.
pub fn either_contains_one_of(a: &str, b: &str, table: &Vec<&str>) -> (r: bool)
    ensures
        r == exists|j: int|
            0 <= j < table@.len() && (has_infix(a@, #[trigger] strs(table@)[j]) || has_infix(
                b@,
                strs(table@)[j],
            )),
{
    let mut k: usize = 0;
    while k < table.len()
        invariant
            k <= table.len(),
            forall|j: int|
                0 <= j < k ==> !has_infix(a@, #[trigger] strs(table@)[j]) && !has_infix(
                    b@,
                    strs(table@)[j],
                ),
        decreases table.len() - k,
    {
        if contains(a, table[k]) || contains(b, table[k]) {
            assert(has_infix(a@, strs(table@)[k as int]) || has_infix(b@, strs(table@)[k as int]));
            return true;
        }
        k = k + 1;
    }
    false
}

/// `f` is one of the comma-separated items of `list`, starting at position `i`.
pub open spec fn item_at(list: Seq<char>, f: Seq<char>, i: int) -> bool {
    &&& occurs_at(list, f, i)
    &&& (i == 0 || list[i - 1] == ',')
    &&& (i + f.len() == list.len() || list[i + f.len()] == ',')
}

/// `f` is exactly one of the comma-separated items of `list`.
pub open spec fn has_item(list: Seq<char>, f: Seq<char>) -> bool {
    exists|i: int| item_at(list, f, i)
}

/// Decides `has_item(list@, f@)`.
pub fn list_has_item(list: &str, f: &str) -> (r: bool)
    ensures
        r == has_item(list@, f@),
{
    let ls = list.unicode_len();
    let lf = f.unicode_len();
    if lf > ls {
        return false;
    }
    let mut i: usize = 0;
    while i <= ls - lf
        invariant
            ls == list@.len(),
            lf == f@.len(),
            lf <= ls,
            forall|k: int| 0 <= k < i ==> !item_at(list@, f@, k),
        decreases ls - lf + 1 - i,
    {
        if matches_at(list, f, i) && (i == 0 || list.get_char(i - 1) == ',') && (i + lf == ls
            || list.get_char(i + lf) == ',') {
            assert(item_at(list@, f@, i as int));
            return true;
        }
        if i == ls - lf {
            return false;
        }
        i = i + 1;
    }
    false
}

/// The values that `f` gives for the first `n` entries of `rows`.
pub open spec fn collected<A>(rows: Seq<A>, n: int, f: spec_fn(A) -> Option<Seq<char>>) -> Set<
    Seq<char>,
> {
    Set::new(|e: Seq<char>| exists|j: int| 0 <= j < n && #[trigger] f(rows[j]) == Some(e))
}

pub proof fn lemma_collected_empty<A>(rows: Seq<A>, f: spec_fn(A) -> Option<Seq<char>>)
    ensures
        collected(rows, 0, f) == Set::<Seq<char>>::empty(),
{
    assert(collected(rows, 0, f) =~= Set::<Seq<char>>::empty());
}

pub proof fn lemma_collected_step<A>(rows: Seq<A>, n: int, f: spec_fn(A) -> Option<Seq<char>>)
    requires
        0 <= n < rows.len(),
    ensures
        collected(rows, n + 1, f) == (match f(rows[n]) {
            Some(e) => collected(rows, n, f).insert(e),
            None => collected(rows, n, f),
        }),
{
    let next = match f(rows[n]) {
        Some(e) => collected(rows, n, f).insert(e),
        None => collected(rows, n, f),
    };
    assert forall|e: Seq<char>| collected(rows, n + 1, f).contains(e) implies next.contains(e) by {
        let j = choose|j: int| 0 <= j < n + 1 && #[trigger] f(rows[j]) == Some(e);
        if j < n {
            assert(collected(rows, n, f).contains(e));
        }
    }
    assert forall|e: Seq<char>| next.contains(e) implies collected(rows, n + 1, f).contains(e) by {
        if f(rows[n]) == Some(e) {
            assert(f(rows[n]) == Some(e));
        } else {
            let j = choose|j: int| 0 <= j < n && #[trigger] f(rows[j]) == Some(e);
            assert(f(rows[j]) == Some(e));
        }
    }
    assert(collected(rows, n + 1, f) =~= next);
}

/// The parts joined, with `sep` between neighbours.
pub open spec fn join(parts: Seq<Seq<char>>, sep: Seq<char>) -> Seq<char>
    decreases parts.len(),
{
    if parts.len() == 0 {
        seq![]
    } else if parts.len() == 1 {
        parts[0]
    } else {
        join(parts.drop_last(), sep) + sep + parts.last()
    }
}

/// Joins the first `count` strings of `parts` with `sep` between neighbours.
pub fn join_first(parts: &Vec<String>, count: usize, sep: &str) -> (r: String)
    requires
        count <= parts@.len(),
    ensures
        r@ == join(texts(parts@).take(count as int), sep@),
{
    let mut r = String::new();
    let mut i: usize = 0;
    assert(texts(parts@).take(0) =~= seq![]);
    while i < count
        invariant
            count <= parts@.len(),
            i <= count,
            r@ == join(texts(parts@).take(i as int), sep@),
        decreases count - i,
    {
        let ghost before = texts(parts@).take(i as int);
        assert(texts(parts@).take(i + 1).drop_last() =~= before);
        if i > 0 {
            r.append(sep);
        } else {
            assert(texts(parts@).take(1) =~= seq![parts@[0]@]);
        }
        r.append(parts[i].as_str());
        i = i + 1;
    }
    r
}

/// A one-element sequence where `c` holds, else an empty one.
pub open spec fn present_if<T>(c: bool, x: T) -> Seq<T> {
    if c {
        seq![x]
    } else {
        seq![]
    }
}

/// The decimal digits of `n`, most significant first.
pub open spec fn decimal(n: nat) -> Seq<char>
    decreases n,
{
    if n < 10 {
        "0123456789"@.subrange(n as int, n + 1int)
    } else {
        decimal(n / 10) + "0123456789"@.subrange((n % 10) as int, (n % 10) + 1int)
    }
}

/// Writes `n` in decimal.
pub fn decimal_string(n: usize) -> (r: String)
    ensures
        r@ == decimal(n as nat),
    decreases n,
{
    let digits = "0123456789";
    proof {
        reveal_strlit("0123456789");
    }
    if n < 10 {
        String::from_str(digits.substring_char(n, n + 1))
    } else {
        let mut r = decimal_string(n / 10);
        let d = n % 10;
        r.append(digits.substring_char(d, d + 1));
        r
    }
}

/// Decides whether `s` is one of the strings of `v`.
pub fn contains_text(v: &Vec<String>, s: &str) -> (r: bool)
    ensures
        r == texts(v@).to_set().contains(s@),
{
    let mut k: usize = 0;
    while k < v.len()
        invariant
            k <= v@.len(),
            forall|j: int| 0 <= j < k ==> texts(v@)[j] != s@,
        decreases v@.len() - k,
    {
        if text_eq(v[k].as_str(), s) {
            assert(texts(v@)[k as int] == s@);
            return true;
        }
        k = k + 1;
    }
    false
}

/// Every value that `f` gives over all entries of `rows`.
pub open spec fn all_collected<A>(rows: Seq<A>, f: spec_fn(A) -> Option<Seq<char>>) -> Set<
    Seq<char>,
> {
    collected(rows, rows.len() as int, f)
}

/// At most the first three entries.
pub open spec fn first_three(s: Seq<Seq<char>>) -> Seq<Seq<char>> {
    if s.len() < 3 {
        s
    } else {
        s.take(3)
    }
}

/// A piece placed between two others occurs in the whole.
pub proof fn lemma_infix_middle(a: Seq<char>, m: Seq<char>, b: Seq<char>)
    ensures
        has_infix(a + m + b, m),
{
    assert((a + m + b).subrange(a.len() as int, (a.len() + m.len()) as int) =~= m);
    assert(occurs_at(a + m + b, m, a.len() as int));
}

/// What occurs in a part occurs in the whole.
pub proof fn lemma_infix_transitive(s: Seq<char>, t: Seq<char>, p: Seq<char>)
    requires
        has_infix(s, t),
        has_infix(t, p),
    ensures
        has_infix(s, p),
{
    let i = choose|i: int| occurs_at(s, t, i);
    let j = choose|j: int| occurs_at(t, p, j);
    assert(s.subrange(i + j, i + j + p.len()) =~= t.subrange(j, j + p.len()));
    assert(occurs_at(s, p, i + j));
}

/// Every part occurs in the parts joined.
pub proof fn lemma_join_contains(parts: Seq<Seq<char>>, sep: Seq<char>, k: int)
    requires
        0 <= k < parts.len(),
    ensures
        has_infix(join(parts, sep), parts[k]),
    decreases parts.len(),
{
    if parts.len() == 1 {
        lemma_infix_middle(seq![], parts[0], seq![]);
        assert(seq![] + parts[0] + seq![] =~= parts[0]);
    } else if k == parts.len() - 1 {
        lemma_infix_middle(join(parts.drop_last(), sep) + sep, parts[k], seq![]);
        assert(join(parts.drop_last(), sep) + sep + parts[k] + seq![] =~= join(parts, sep));
    } else {
        lemma_join_contains(parts.drop_last(), sep, k);
        let whole = join(parts, sep);
        let head = join(parts.drop_last(), sep);
        lemma_infix_middle(seq![], head, sep + parts.last());
        assert(seq![] + head + (sep + parts.last()) =~= whole);
        lemma_infix_transitive(whole, head, parts[k]);
    }
}

} // verus!
