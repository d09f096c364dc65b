//! Small operations on text, stated over sequences of characters.
use vstd::prelude::*;

verus! {

/// The position of the last occurrence of `c` in `s`, or -1.
pub open spec fn last_index_of(s: Seq<char>, c: char) -> int
    decreases s.len(),
{
    if s.len() == 0 {
        -1
    } else if s[s.len() - 1] == c {
        s.len() - 1
    } else {
        last_index_of(s.subrange(0, s.len() - 1), c)
    }
}

pub proof fn lemma_last_index_range(s: Seq<char>, c: char)
    ensures
        -1 <= last_index_of(s, c) < s.len(),
    decreases s.len(),
{
    if s.len() > 0 {
        lemma_last_index_range(s.subrange(0, s.len() - 1), c);
    }
}

/// Finds the last occurrence of `c` in `s`.
pub fn find_last(s: &str, c: char) -> (r: Option<usize>)
    ensures
        match r {
            Some(i) => i == last_index_of(s@, c),
            None => last_index_of(s@, c) == -1,
        },
        -1 <= last_index_of(s@, c) < s@.len(),
        s@.len() <= usize::MAX,
{
    proof {
        lemma_last_index_range(s@, c);
    }
    let n = s.unicode_len();
    let mut i: usize = n;
    assert(s@.subrange(0, n as int) =~= s@);
    while i > 0
        invariant
            i <= n == s@.len(),
            last_index_of(s@, c) == last_index_of(s@.subrange(0, i as int), c),
        decreases i,
    {
        let ch = s.get_char(i - 1);
        assert(s@.subrange(0, i as int).subrange(0, i - 1) =~= s@.subrange(0, i - 1));
        if ch == c {
            assert(s@.subrange(0, i as int)[i - 1] == c);
            return Some(i - 1);
        }
        i = i - 1;
    }
    None
}

/// Whether `a` comes strictly before `b` in lexicographic order of code
/// points (for UTF-8 text, the same as byte order).
pub open spec fn text_less(a: Seq<char>, b: Seq<char>) -> bool {
    exists|i: int| #[trigger] differs_first_at(a, b, i)
}

/// `a` and `b` agree before position `i`, and at `i` either `a` has ended
/// while `b` goes on, or both go on and `a` has the smaller character.
pub open spec fn differs_first_at(a: Seq<char>, b: Seq<char>, i: int) -> bool {
    &&& 0 <= i <= a.len()
    &&& i <= b.len()
    &&& forall|k: int| 0 <= k < i ==> a[k] == b[k]
    &&& ((i == a.len() && i < b.len()) || (i < a.len() && i < b.len() && (a[i] as u32) < (b[i]
        as u32)))
}

/// Lexicographic order is asymmetric.
pub proof fn lemma_text_less_asymmetric(a: Seq<char>, b: Seq<char>)
    ensures
        text_less(a, b) ==> !text_less(b, a),
        !text_less(a, a),
{
    if text_less(a, b) && text_less(b, a) {
        let i = choose|i: int| #[trigger] differs_first_at(a, b, i);
        let j = choose|j: int| #[trigger] differs_first_at(b, a, j);
        if i < j {
            assert(b[i] == a[i]);
        } else if j < i {
            assert(a[j] == b[j]);
        }
    }
    if text_less(a, a) {
        let i = choose|i: int| #[trigger] differs_first_at(a, a, i);
    }
}

/// Compares `a` and `b` lexicographically.
pub fn less_than(a: &str, b: &str) -> (r: bool)
    ensures
        r == text_less(a@, b@),
{
    let na = a.unicode_len();
    let nb = b.unicode_len();
    let mut i: usize = 0;
    while i < na && i < nb
        invariant
            na == a@.len(),
            nb == b@.len(),
            i <= na,
            i <= nb,
            forall|k: int| 0 <= k < i ==> a@[k] == b@[k],
        decreases na - i,
    {
        let ca = a.get_char(i);
        let cb = b.get_char(i);
        if ca != cb {
            let r = (ca as u32) < (cb as u32);
            proof {
                if r {
                    assert(differs_first_at(a@, b@, i as int));
                } else {
                    if text_less(a@, b@) {
                        let j = choose|j: int| #[trigger] differs_first_at(a@, b@, j);
                        assert(a@[i as int] == b@[i as int] || j <= i);
                    }
                }
            }
            return r;
        }
        i = i + 1;
    }
    let r = na < nb;
    proof {
        if r {
            assert(differs_first_at(a@, b@, i as int));
        } else if text_less(a@, b@) {
            let j = choose|j: int| #[trigger] differs_first_at(a@, b@, j);
            assert(j <= i);
        }
    }
    r
}

/// The pieces of `s` between occurrences of `sep`, as `str::split` yields
/// them: `n` separators give `n + 1` pieces, empty ones included.
pub open spec fn split_on(s: Seq<char>, sep: char) -> Seq<Seq<char>>
    decreases s.len(),
{
    if s.len() == 0 {
        seq![Seq::empty()]
    } else {
        let rest = split_on(s.subrange(0, s.len() - 1), sep);
        if s[s.len() - 1] == sep {
            rest.push(Seq::empty())
        } else {
            rest.update(rest.len() - 1, rest[rest.len() - 1].push(s[s.len() - 1]))
        }
    }
}

pub proof fn lemma_split_on_nonempty(s: Seq<char>, sep: char)
    ensures
        split_on(s, sep).len() >= 1,
    decreases s.len(),
{
    if s.len() > 0 {
        lemma_split_on_nonempty(s.subrange(0, s.len() - 1), sep);
    }
}

/// The views of a sequence of strings.
pub open spec fn views(s: Seq<String>) -> Seq<Seq<char>> {
    s.map_values(|p: String| p@)
}

/// Splits `s` at each `sep`.
pub fn split_char(s: &str, sep: char) -> (r: Vec<String>)
    ensures
        views(r@) == split_on(s@, sep),
{
    let n = s.unicode_len();
    let mut pieces: Vec<String> = Vec::new();
    let mut start: usize = 0;
    let mut i: usize = 0;
    assert(split_on(s@.subrange(0, 0), sep) == seq![Seq::<char>::empty()]);
    assert(views(pieces@) =~= Seq::<Seq<char>>::empty());
    assert(s@.subrange(0, 0) =~= Seq::<char>::empty());
    assert(views(pieces@).push(s@.subrange(0, 0)) =~= seq![Seq::<char>::empty()]);
    while i < n
        invariant
            n == s@.len(),
            start <= i <= n,
            split_on(s@.subrange(0, i as int), sep) == views(pieces@).push(
                s@.subrange(start as int, i as int),
            ),
        decreases n - i,
    {
        let c = s.get_char(i);
        let ghost before = views(pieces@);
        assert(s@.subrange(0, i + 1).subrange(0, i as int) =~= s@.subrange(0, i as int));
        if c == sep {
            let piece = String::from_str(s.substring_char(start, i));
            pieces.push(piece);
            assert(views(pieces@) =~= before.push(s@.subrange(start as int, i as int)));
            start = i + 1;
            assert(s@.subrange(start as int, i + 1) =~= Seq::<char>::empty());
        } else {
            assert(s@.subrange(start as int, i + 1) =~= s@.subrange(start as int, i as int).push(c));
        }
        i = i + 1;
    }
    let last = String::from_str(s.substring_char(start, n));
    let ghost before = views(pieces@);
    pieces.push(last);
    assert(views(pieces@) =~= before.push(s@.subrange(start as int, n as int)));
    assert(s@.subrange(0, n as int) =~= s@);
    pieces
}


/// The lines of `s`: the pieces between newlines, where a final newline ends
/// the last line rather than starting an empty one.
pub open spec fn lines_of(s: Seq<char>) -> Seq<Seq<char>> {
    let p = split_on(s, '\n');
    if p[p.len() - 1].len() == 0 {
        p.subrange(0, p.len() - 1)
    } else {
        p
    }
}

/// Splits `s` into lines.
pub fn lines(s: &str) -> (r: Vec<String>)
    ensures
        views(r@) == lines_of(s@),
{
    let mut p = split_char(s, '\n');
    proof {
        lemma_split_on_nonempty(s@, '\n');
    }
    let last = p.len() - 1;
    if p[last].as_str().unicode_len() == 0 {
        let ghost before = views(p@);
        p.pop();
        assert(views(p@) =~= before.subrange(0, before.len() - 1));
    }
    p
}

/// Unicode white space, as `char::is_whitespace` classifies it.
pub open spec fn is_space(c: char) -> bool {
    let u = c as u32;
    ||| 0x09 <= u <= 0x0d
    ||| u == 0x20
    ||| u == 0x85
    ||| u == 0xa0
    ||| u == 0x1680
    ||| 0x2000 <= u <= 0x200a
    ||| u == 0x2028
    ||| u == 0x2029
    ||| u == 0x202f
    ||| u == 0x205f
    ||| u == 0x3000
}

/// Whether `c` is white space.
pub fn space(c: char) -> (r: bool)
    ensures
        r == is_space(c),
{
    let u = c as u32;
    (0x09 <= u && u <= 0x0d) || u == 0x20 || u == 0x85 || u == 0xa0 || u == 0x1680 || (0x2000 <= u
        && u <= 0x200a) || u == 0x2028 || u == 0x2029 || u == 0x202f || u == 0x205f || u == 0x3000
}

/// The pieces of `s` between white-space characters, empty ones included.
pub open spec fn split_spaces(s: Seq<char>) -> Seq<Seq<char>>
    decreases s.len(),
{
    if s.len() == 0 {
        seq![Seq::empty()]
    } else {
        let rest = split_spaces(s.subrange(0, s.len() - 1));
        if is_space(s[s.len() - 1]) {
            rest.push(Seq::empty())
        } else {
            rest.update(rest.len() - 1, rest[rest.len() - 1].push(s[s.len() - 1]))
        }
    }
}

/// The test for a non-empty piece.
pub open spec fn nonempty() -> spec_fn(Seq<char>) -> bool {
    |p: Seq<char>| p.len() > 0
}

/// The white-space separated words of `s`, as `str::split_whitespace`
/// yields them.
pub open spec fn tokens_of(s: Seq<char>) -> Seq<Seq<char>> {
    split_spaces(s).filter(nonempty())
}

/// Splits `s` into its white-space separated words.
pub fn tokens(s: &str) -> (r: Vec<String>)
    ensures
        views(r@) == tokens_of(s@),
{
    let n = s.unicode_len();
    let mut out: Vec<String> = Vec::new();
    let mut start: usize = 0;
    let mut i: usize = 0;
    let ghost mut done: Seq<Seq<char>> = Seq::empty();
    assert(split_spaces(s@.subrange(0, 0)) == seq![Seq::<char>::empty()]);
    assert(s@.subrange(0, 0) =~= Seq::<char>::empty());
    assert(done.push(s@.subrange(0, 0)) =~= seq![Seq::<char>::empty()]);
    assert(views(out@) =~= Seq::<Seq<char>>::empty());
    proof {
        reveal(Seq::filter);
    }
    assert(done.filter(nonempty()) =~= Seq::<Seq<char>>::empty());
    while i < n
        invariant
            n == s@.len(),
            start <= i <= n,
            split_spaces(s@.subrange(0, i as int)) == done.push(s@.subrange(start as int, i as int)),
            done.filter(nonempty()) == views(out@),
        decreases n - i,
    {
        let c = s.get_char(i);
        assert(s@.subrange(0, i + 1).subrange(0, i as int) =~= s@.subrange(0, i as int));
        if space(c) {
            let ghost piece = s@.subrange(start as int, i as int);
            proof {
                done.lemma_filter_push(piece, nonempty());
            }
            if start < i {
                let ghost before = views(out@);
                out.push(String::from_str(s.substring_char(start, i)));
                assert(views(out@) =~= before.push(piece));
            }
            proof {
                done = done.push(piece);
            }
            start = i + 1;
            assert(s@.subrange(start as int, i + 1) =~= Seq::<char>::empty());
        } else {
            assert(s@.subrange(start as int, i + 1) =~= s@.subrange(start as int, i as int).push(c));
        }
        i = i + 1;
    }
    let ghost piece = s@.subrange(start as int, n as int);
    proof {
        done.lemma_filter_push(piece, nonempty());
    }
    if start < n {
        let ghost before = views(out@);
        out.push(String::from_str(s.substring_char(start, n)));
        assert(views(out@) =~= before.push(piece));
    }
    assert(s@.subrange(0, n as int) =~= s@);
    out
}

/// Whether `s` begins with `p`.
pub open spec fn has_prefix(s: Seq<char>, p: Seq<char>) -> bool {
    p.len() <= s.len() && s.subrange(0, p.len() as int) == p
}

/// Whether `s` begins with `p`.
pub fn starts_with(s: &str, p: &str) -> (r: bool)
    ensures
        r == has_prefix(s@, p@),
{
    let n = s.unicode_len();
    let m = p.unicode_len();
    if m > n {
        return false;
    }
    let mut i: usize = 0;
    while i < m
        invariant
            m <= n,
            n == s@.len(),
            m == p@.len(),
            i <= m,
            forall|k: int| 0 <= k < i ==> s@[k] == p@[k],
        decreases m - i,
    {
        if s.get_char(i) != p.get_char(i) {
            assert(s@.subrange(0, m as int)[i as int] != p@[i as int]);
            return false;
        }
        i = i + 1;
    }
    assert(s@.subrange(0, m as int) =~= p@);
    true
}

/// Whether `s` ends with `p`.
pub open spec fn has_suffix(s: Seq<char>, p: Seq<char>) -> bool {
    p.len() <= s.len() && s.subrange(s.len() - p.len(), s.len() as int) == p
}

/// `s` without the suffix `p`, when it ends with it.
pub fn strip_suffix(s: &str, p: &str) -> (r: Option<String>)
    ensures
        has_suffix(s@, p@) ==> r is Some && r->Some_0@ == s@.subrange(0, s@.len() - p@.len()),
        !has_suffix(s@, p@) ==> r is None,
{
    let n = s.unicode_len();
    let m = p.unicode_len();
    if m > n {
        return None;
    }
    let mut i: usize = 0;
    while i < m
        invariant
            m <= n,
            n == s@.len(),
            m == p@.len(),
            i <= m,
            forall|k: int| 0 <= k < i ==> s@[n - m + k] == p@[k],
        decreases m - i,
    {
        if s.get_char(n - m + i) != p.get_char(i) {
            assert(s@.subrange(n - m, n as int)[i as int] != p@[i as int]);
            return None;
        }
        i = i + 1;
    }
    assert(s@.subrange(n - m, n as int) =~= p@);
    Some(String::from_str(s.substring_char(0, n - m)))
}

/// Whether `c` is an ASCII decimal digit.
pub open spec fn is_digit(c: char) -> bool {
    48 <= c as u32 <= 57
}

/// The number that the decimal digits `d` spell.
pub open spec fn digits_value(d: Seq<char>) -> nat
    decreases d.len(),
{
    if d.len() == 0 {
        0
    } else {
        digits_value(d.subrange(0, d.len() - 1)) * 10 + ((d[d.len() - 1] as u32 - 48) as nat)
    }
}

/// `s` without one leading '+'.
pub open spec fn unsigned_digits(s: Seq<char>) -> Seq<char> {
    if s.len() > 0 && s[0] == '+' {
        s.subrange(1, s.len() as int)
    } else {
        s
    }
}

/// The unsigned integer that `s` spells, as `str::parse::<u64>` reads it:
/// an optional '+', then one or more decimal digits, the value fitting in
/// 64 bits.
pub open spec fn decimal_of(s: Seq<char>) -> Option<u64> {
    let body = unsigned_digits(s);
    if body.len() > 0 && (forall|i: int| 0 <= i < body.len() ==> is_digit(#[trigger] body[i]))
        && digits_value(body) <= u64::MAX {
        Some(digits_value(body) as u64)
    } else {
        None
    }
}

proof fn lemma_digits_value_grows(d: Seq<char>, i: int)
    requires
        0 <= i <= d.len(),
        forall|k: int| 0 <= k < d.len() ==> is_digit(#[trigger] d[k]),
    ensures
        digits_value(d.subrange(0, i)) <= digits_value(d),
    decreases d.len() - i,
{
    if i < d.len() {
        lemma_digits_value_grows(d, i + 1);
        assert(d.subrange(0, i + 1).subrange(0, i) =~= d.subrange(0, i));
        let a = digits_value(d.subrange(0, i));
        assert(digits_value(d.subrange(0, i + 1)) >= a * 10);
        assert(a * 10 >= a) by (nonlinear_arith)
            requires
                a >= 0,
        ;
    } else {
        assert(d.subrange(0, i) =~= d);
    }
}

/// Reads an unsigned integer as `decimal_of` states it.
pub fn parse_u64(s: &str) -> (r: Option<u64>)
    ensures
        r == decimal_of(s@),
{
    let n = s.unicode_len();
    let mut i: usize = 0;
    if n > 0 && s.get_char(0) == '+' {
        i = 1;
    }
    let ghost body = unsigned_digits(s@);
    let first = i;
    if first == n {
        return None;
    }
    let mut v: u64 = 0;
    assert(body.subrange(0, 0) =~= Seq::<char>::empty());
    while i < n
        invariant
            n == s@.len(),
            first <= i <= n,
            first < n,
            body == s@.subrange(first as int, n as int),
            body == unsigned_digits(s@),
            forall|k: int| first <= k < i ==> is_digit(#[trigger] s@[k]),
            v == digits_value(body.subrange(0, i - first)),
        decreases n - i,
    {
        let c = s.get_char(i);
        let u = c as u32;
        if u < 48 || u > 57 {
            assert(body[i - first] == c);
            assert(!is_digit(body[i - first]));
            assert(!(forall|k: int| 0 <= k < body.len() ==> is_digit(#[trigger] body[k])));
            return None;
        }
        let d = (u - 48) as u64;
        let ghost prefix = body.subrange(0, i + 1 - first);
        assert(prefix.subrange(0, i - first) =~= body.subrange(0, i - first));
        assert(prefix[prefix.len() - 1] == c);
        assert(digits_value(prefix) == v * 10 + d);
        if v > (u64::MAX - d) / 10 {
            proof {
                assert(v * 10 + d > u64::MAX) by (nonlinear_arith)
                    requires
                        v > (u64::MAX - d) / 10,
                        d <= 9,
                ;
                if forall|k: int| 0 <= k < body.len() ==> is_digit(#[trigger] body[k]) {
                    lemma_digits_value_grows(body, i + 1 - first);
                    assert(digits_value(body) > u64::MAX);
                }
            }
            return None;
        }
        assert(v * 10 + d <= u64::MAX) by (nonlinear_arith)
            requires
                v <= (u64::MAX - d) / 10,
                d <= 9,
        ;
        v = v * 10 + d;
        i = i + 1;
    }
    assert(body.subrange(0, n - first) =~= body);
    Some(v)
}


/// The character test that a trim removes: white space (`None`) or one
/// given character.
pub open spec fn trim_test(which: Option<char>) -> spec_fn(char) -> bool {
    |c: char|
        match which {
            Some(q) => c == q,
            None => is_space(c),
        }
}

/// `s` without the leading characters that pass `p`.
pub open spec fn trim_start_by(s: Seq<char>, p: spec_fn(char) -> bool) -> Seq<char>
    decreases s.len(),
{
    if s.len() > 0 && p(s[0]) {
        trim_start_by(s.subrange(1, s.len() as int), p)
    } else {
        s
    }
}

/// `s` without the trailing characters that pass `p`.
pub open spec fn trim_end_by(s: Seq<char>, p: spec_fn(char) -> bool) -> Seq<char>
    decreases s.len(),
{
    if s.len() > 0 && p(s[s.len() - 1]) {
        trim_end_by(s.subrange(0, s.len() - 1), p)
    } else {
        s
    }
}

/// `s` without the leading and trailing characters that `which` names,
/// as `str::trim` (white space) and `str::trim_matches` (a character) do.
pub open spec fn trimmed(s: Seq<char>, which: Option<char>) -> Seq<char> {
    trim_end_by(trim_start_by(s, trim_test(which)), trim_test(which))
}

fn passes(c: char, which: Option<char>) -> (r: bool)
    ensures
        r == trim_test(which)(c),
{
    match which {
        Some(q) => c == q,
        None => space(c),
    }
}

/// Removes the leading and trailing characters that `which` names.
pub fn trim_by(s: &str, which: Option<char>) -> (r: String)
    ensures
        r@ == trimmed(s@, which),
{
    let ghost p = trim_test(which);
    let n = s.unicode_len();
    let mut i: usize = 0;
    assert(s@.subrange(0, n as int) =~= s@);
    while i < n && passes(s.get_char(i), which)
        invariant
            i <= n == s@.len(),
            p == trim_test(which),
            trim_start_by(s@, p) == trim_start_by(s@.subrange(i as int, n as int), p),
        decreases n - i,
    {
        assert(s@.subrange(i as int, n as int).subrange(1, n - i) =~= s@.subrange(i + 1, n as int));
        i = i + 1;
    }
    let ghost t = s@.subrange(i as int, n as int);
    assert(trim_start_by(s@, p) == t) by {
        if i < n {
            assert(!p(s@[i as int]));
            assert(t[0] == s@[i as int]);
        }
    }
    let mut j: usize = n;
    assert(t.subrange(0, (n - i) as int) =~= t);
    while j > i && passes(s.get_char(j - 1), which)
        invariant
            i <= j <= n == s@.len(),
            p == trim_test(which),
            t == s@.subrange(i as int, n as int),
            trim_end_by(t, p) == trim_end_by(s@.subrange(i as int, j as int), p),
        decreases j,
    {
        assert(s@.subrange(i as int, j as int).subrange(0, j - i - 1) =~= s@.subrange(
            i as int,
            j - 1,
        ));
        j = j - 1;
    }
    assert(trim_end_by(t, p) == s@.subrange(i as int, j as int)) by {
        if j > i {
            assert(!p(s@[j - 1]));
            assert(s@.subrange(i as int, j as int)[j - i - 1] == s@[j - 1]);
        }
    }
    String::from_str(s.substring_char(i, j))
}


/// Removes the trailing occurrences of `c`, as `str::trim_end_matches` does.
pub fn trim_end_char(s: &str, c: char) -> (r: String)
    ensures
        r@ == trim_end_by(s@, trim_test(Some(c))),
{
    let ghost p = trim_test(Some(c));
    let n = s.unicode_len();
    let mut j: usize = n;
    assert(s@.subrange(0, n as int) =~= s@);
    while j > 0 && s.get_char(j - 1) == c
        invariant
            j <= n == s@.len(),
            p == trim_test(Some(c)),
            trim_end_by(s@, p) == trim_end_by(s@.subrange(0, j as int), p),
        decreases j,
    {
        assert(s@.subrange(0, j as int).subrange(0, j - 1) =~= s@.subrange(0, j - 1));
        j = j - 1;
    }
    assert(trim_end_by(s@, p) == s@.subrange(0, j as int)) by {
        if j > 0 {
            assert(s@.subrange(0, j as int)[j - 1] == s@[j - 1]);
        }
    }
    String::from_str(s.substring_char(0, j))
}

/// Whether `p` occurs in `s`.
pub open spec fn has_infix(s: Seq<char>, p: Seq<char>) -> bool {
    exists|i: int| 0 <= i && i + p.len() <= s.len() && #[trigger] s.subrange(i, i + p.len()) == p
}

/// Whether `p` occurs in `s`.
pub fn contains(s: &str, p: &str) -> (r: bool)
    ensures
        r == has_infix(s@, p@),
{
    let n = s.unicode_len();
    let m = p.unicode_len();
    if m > n {
        return false;
    }
    if m == 0 {
        assert(s@.subrange(0, 0 + p@.len() as int) =~= p@);
        assert(has_infix(s@, p@));
        return true;
    }
    let mut i: usize = 0;
    while i <= n - m
        invariant
            1 <= m <= n == s@.len(),
            m == p@.len(),
            forall|k: int| 0 <= k < i ==> #[trigger] s@.subrange(k, k + m) != p@,
        decreases n - m + 1 - i,
    {
        let rest = s.substring_char(i, n);
        if starts_with(rest, p) {
            assert(rest@.subrange(0, m as int) =~= s@.subrange(i as int, i + m));
            return true;
        }
        assert(rest@.subrange(0, m as int) =~= s@.subrange(i as int, i + m));
        i = i + 1;
    }
    false
}


/// Whether `i` is the first position where `p` occurs in `s`.
pub open spec fn is_first_occurrence(s: Seq<char>, p: Seq<char>, i: int) -> bool {
    &&& 0 <= i
    &&& i + p.len() <= s.len()
    &&& s.subrange(i, i + p.len()) == p
    &&& forall|k: int| 0 <= k < i ==> #[trigger] s.subrange(k, k + p.len()) != p
}

/// The first position where `p` occurs in `s`, or -1.
pub open spec fn first_occurrence(s: Seq<char>, p: Seq<char>) -> int {
    if exists|i: int| is_first_occurrence(s, p, i) {
        choose|i: int| is_first_occurrence(s, p, i)
    } else {
        -1
    }
}

/// The piece of `s` after the first occurrence of `p` and before the next,
/// as `str::split(p).nth(1)` yields it; none when `p` does not occur.
pub open spec fn piece_after(s: Seq<char>, p: Seq<char>) -> Option<Seq<char>> {
    let i = first_occurrence(s, p);
    if i < 0 {
        None
    } else {
        let rest = s.subrange(i + p.len(), s.len() as int);
        let j = first_occurrence(rest, p);
        if j < 0 {
            Some(rest)
        } else {
            Some(rest.subrange(0, j))
        }
    }
}

/// Finds the first occurrence of `p` in `s`.
pub fn find_str(s: &str, p: &str) -> (r: Option<usize>)
    ensures
        match r {
            Some(i) => first_occurrence(s@, p@) == i && is_first_occurrence(s@, p@, i as int),
            None => first_occurrence(s@, p@) == -1,
        },
        s@.len() <= usize::MAX,
{
    let n = s.unicode_len();
    let m = p.unicode_len();
    let mut i: usize = 0;
    if m > n {
        proof {
            if exists|x: int| is_first_occurrence(s@, p@, x) {
                let x = choose|x: int| is_first_occurrence(s@, p@, x);
            }
        }
        return None;
    }
    while i <= n - m
        invariant
            m <= n == s@.len(),
            m == p@.len(),
            i <= n - m + 1,
            forall|k: int| 0 <= k < i ==> #[trigger] s@.subrange(k, k + m) != p@,
        decreases n - m + 1 - i,
    {
        let rest = s.substring_char(i, n);
        if starts_with(rest, p) {
            assert(rest@.subrange(0, m as int) =~= s@.subrange(i as int, i + m));
            proof {
                assert(is_first_occurrence(s@, p@, i as int));
                let c = choose|x: int| is_first_occurrence(s@, p@, x);
                if c < i {
                } else if c > i {
                    assert(s@.subrange(i as int, i + m) != p@);
                }
            }
            return Some(i);
        }
        assert(rest@.subrange(0, m as int) =~= s@.subrange(i as int, i + m));
        if i == n - m {
            proof {
                if exists|x: int| is_first_occurrence(s@, p@, x) {
                    let x = choose|x: int| is_first_occurrence(s@, p@, x);
                    assert(s@.subrange(x, x + m) != p@);
                }
            }
            return None;
        }
        i = i + 1;
    }
    None
}

/// The piece of `s` between the first and second occurrences of `p`.
pub fn split_str_second(s: &str, p: &str) -> (r: Option<String>)
    ensures
        match r {
            Some(v) => piece_after(s@, p@) == Some(v@),
            None => piece_after(s@, p@) is None,
        },
{
    match find_str(s, p) {
        None => None,
        Some(i) => {
            let n = s.unicode_len();
            let m = p.unicode_len();
            let rest = s.substring_char(i + m, n);
            match find_str(rest, p) {
                None => Some(String::from_str(rest)),
                Some(j) => Some(String::from_str(rest.substring_char(0, j))),
            }
        },
    }
}

/// The lowercase form of `s`, as `str::to_lowercase` gives it.
pub uninterp spec fn lowercase_of(s: Seq<char>) -> Seq<char>;

/// Relies on str::to_lowercase: the lowercase mapping of each character,
/// which depends on the text alone.
#[verifier::external_body]
pub(crate) fn to_lower(s: &str) -> (r: String)
    ensures
        r@ == lowercase_of(s@),
{
    s.to_lowercase()
}


/// The pieces of `s` between occurrences of the non-empty `p`, as
/// `str::split(p)` yields them.
pub open spec fn split_by_str(s: Seq<char>, p: Seq<char>) -> Seq<Seq<char>>
    decreases s.len(),
{
    let i = first_occurrence(s, p);
    if p.len() == 0 || i < 0 || !(0 <= i && i + p.len() <= s.len()) {
        seq![s]
    } else {
        seq![s.subrange(0, i)] + split_by_str(s.subrange(i + p.len(), s.len() as int), p)
    }
}

/// Splits `s` at each occurrence of the non-empty `p`.
pub fn split_str(s: &str, p: &str) -> (r: Vec<String>)
    requires
        p@.len() > 0,
    ensures
        views(r@) == split_by_str(s@, p@),
    decreases s@.len(),
{
    match find_str(s, p) {
        None => {
            let mut v: Vec<String> = Vec::new();
            v.push(String::from_str(s));
            assert(views(v@) =~= seq![s@]);
            v
        },
        Some(i) => {
            let n = s.unicode_len();
            let m = p.unicode_len();
            let rest = split_str(s.substring_char(i + m, n), p);
            let mut v: Vec<String> = Vec::new();
            v.push(String::from_str(s.substring_char(0, i)));
            let mut k: usize = 0;
            let ghost head = views(v@);
            while k < rest.len()
                invariant
                    k <= rest.len(),
                    head.len() == 1,
                    views(v@) == head + views(rest@).subrange(0, k as int),
                decreases rest.len() - k,
            {
                let ghost before = views(v@);
                let x = rest[k].clone();
                v.push(x);
                assert(views(v@) =~= before.push(views(rest@)[k as int]));
                assert(views(v@) =~= head + views(rest@).subrange(0, k + 1));
                k = k + 1;
            }
            assert(views(rest@).subrange(0, rest.len() as int) =~= views(rest@));
            v
        },
    }
}

} // verus!
