//! Character-level text handling shared by the chat protocol and the
//! tokenizer: Unicode whitespace, trimming, splitting into words and lines,
//! and decimal integers.
use vstd::prelude::*;

verus! {

/// The Unicode `White_Space` property, which `char::is_whitespace`,
/// `str::trim` and `str::split_whitespace` go by.
pub open spec fn is_white_space(c: char) -> bool {
    let u = c as u32;
    ||| 0x09 <= u <= 0x0D
    ||| u == 0x20
    ||| u == 0x85
    ||| u == 0xA0
    ||| u == 0x1680
    ||| 0x2000 <= u <= 0x200A
    ||| u == 0x2028
    ||| u == 0x2029
    ||| u == 0x202F
    ||| u == 0x205F
    ||| u == 0x3000
}

/// Whether `c` has the Unicode `White_Space` property.
pub fn is_whitespace_char(c: char) -> (r: bool)
    ensures
        r == is_white_space(c),
{
    let u = c as u32;
    (0x09 <= u && u <= 0x0D) || u == 0x20 || u == 0x85 || u == 0xA0 || u == 0x1680 || (0x2000 <= u
        && u <= 0x200A) || u == 0x2028 || u == 0x2029 || u == 0x202F || u == 0x205F || u == 0x3000
}

/// Appends one character to a `String` (`String::push`).
#[verifier::external_body]
pub(crate) fn push_char(s: &mut String, c: char)
    ensures
        final(s)@ == old(s)@.push(c),
{
    s.push(c);
}

/// The characters of `s`, in order.
pub fn chars_of(s: &str) -> (v: Vec<char>)
    ensures
        v@ == s@,
{
    let n = s.unicode_len();
    let mut v: Vec<char> = Vec::new();
    let mut i: usize = 0;
    while i < n
        invariant
            n == s@.len(),
            i <= n,
            v@ == s@.take(i as int),
        decreases n - i,
    {
        let c = s.get_char(i);
        v.push(c);
        i = i + 1;
        assert(v@ == s@.take(i as int));
    }
    assert(s@.take(n as int) == s@);
    v
}

/// A `String` holding exactly the characters `cs`.
pub fn string_from_chars(cs: &[char]) -> (s: String)
    ensures
        s@ == cs@,
{
    let mut s = String::new();
    let mut i: usize = 0;
    while i < cs.len()
        invariant
            i <= cs@.len(),
            s@ == cs@.take(i as int),
        decreases cs@.len() - i,
    {
        push_char(&mut s, cs[i]);
        i = i + 1;
        assert(s@ == cs@.take(i as int));
    }
    assert(cs@.take(cs@.len() as int) == cs@);
    s
}


/// The characters that a trim removes: `'\0'` when `nul`, Unicode whitespace otherwise.
pub open spec fn strips(nul: bool, c: char) -> bool {
    if nul {
        c == '\0'
    } else {
        is_white_space(c)
    }
}

/// `s` without its leading run of stripped characters.
pub open spec fn trim_start_by(s: Seq<char>, nul: bool) -> Seq<char>
    decreases s.len(),
{
    if s.len() > 0 && strips(nul, s[0]) {
        trim_start_by(s.drop_first(), nul)
    } else {
        s
    }
}

/// `s` without its trailing run of stripped characters.
pub open spec fn trim_end_by(s: Seq<char>, nul: bool) -> Seq<char>
    decreases s.len(),
{
    if s.len() > 0 && strips(nul, s.last()) {
        trim_end_by(s.drop_last(), nul)
    } else {
        s
    }
}

/// `s` without stripped characters at either end.
pub open spec fn trim_by(s: Seq<char>, nul: bool) -> Seq<char> {
    trim_end_by(trim_start_by(s, nul), nul)
}

/// What `str::trim` gives: `s` without leading and trailing Unicode whitespace.
pub open spec fn trim_ws(s: Seq<char>) -> Seq<char> {
    trim_by(s, false)
}

/// What `.trim_matches('\0').trim()` gives, as applied to text read from a socket.
pub open spec fn trim_received(s: Seq<char>) -> Seq<char> {
    trim_ws(trim_by(s, true))
}

fn strips_char(nul: bool, c: char) -> (r: bool)
    ensures
        r == strips(nul, c),
{
    if nul {
        c == '\0'
    } else {
        is_whitespace_char(c)
    }
}

/// The characters `s[from..to]`, copied.
pub fn copy_range(s: &[char], from: usize, to: usize) -> (r: Vec<char>)
    requires
        from <= to <= s@.len(),
    ensures
        r@ == s@.subrange(from as int, to as int),
{
    let mut r: Vec<char> = Vec::new();
    let mut i: usize = from;
    while i < to
        invariant
            from <= i <= to <= s@.len(),
            r@ == s@.subrange(from as int, i as int),
        decreases to - i,
    {
        r.push(s[i]);
        i = i + 1;
        assert(r@ == s@.subrange(from as int, i as int));
    }
    r
}

proof fn lemma_trim_start_skip(s: Seq<char>, nul: bool, i: int)
    requires
        0 <= i <= s.len(),
        forall|j: int| 0 <= j < i ==> strips(nul, #[trigger] s[j]),
    ensures
        trim_start_by(s, nul) == trim_start_by(s.skip(i), nul),
    decreases i,
{
    if i > 0 {
        assert(s.skip(1) == s.drop_first());
        lemma_trim_start_skip(s.drop_first(), nul, i - 1);
        assert(s.drop_first().skip(i - 1) == s.skip(i));
    } else {
        assert(s.skip(0) == s);
    }
}

proof fn lemma_trim_end_take(s: Seq<char>, nul: bool, j: int)
    requires
        0 <= j <= s.len(),
        forall|k: int| j <= k < s.len() ==> strips(nul, #[trigger] s[k]),
    ensures
        trim_end_by(s, nul) == trim_end_by(s.take(j), nul),
    decreases s.len() - j,
{
    if j < s.len() {
        assert(s.drop_last() == s.take(s.len() - 1));
        lemma_trim_end_take(s.drop_last(), nul, j);
        assert(s.drop_last().take(j) == s.take(j));
    } else {
        assert(s.take(j) == s);
    }
}

/// `s` with the stripped characters removed from both ends.
pub fn trim_chars(s: &[char], nul: bool) -> (r: Vec<char>)
    ensures
        r@ == trim_by(s@, nul),
{
    let n = s.len();
    let mut i: usize = 0;
    while i < n && strips_char(nul, s[i])
        invariant
            i <= n == s@.len(),
            forall|j: int| 0 <= j < i ==> strips(nul, #[trigger] s@[j]),
        decreases n - i,
    {
        i = i + 1;
    }
    proof {
        lemma_trim_start_skip(s@, nul, i as int);
    }
    let ghost t = s@.skip(i as int);
    assert(trim_start_by(t, nul) == t);
    let mut j: usize = n;
    while j > i && strips_char(nul, s[j - 1])
        invariant
            i <= j <= n == s@.len(),
            t == s@.skip(i as int),
            forall|k: int| j - i <= k < t.len() ==> strips(nul, #[trigger] t[k]),
        decreases j,
    {
        assert(t[j - 1 - i] == s@[j - 1]);
        j = j - 1;
    }
    proof {
        lemma_trim_end_take(t, nul, j - i);
        let u = t.take(j - i);
        assert(u == s@.subrange(i as int, j as int));
        if u.len() > 0 {
            assert(u.last() == s@[j - 1]);
        }
        assert(trim_end_by(u, nul) == u);
    }
    copy_range(s, i, j)
}

/// `str::trim`: the text without leading and trailing Unicode whitespace.
pub fn trim(s: &str) -> (r: String)
    ensures
        r@ == trim_ws(s@),
{
    let cs = chars_of(s);
    let t = trim_chars(cs.as_slice(), false);
    string_from_chars(t.as_slice())
}

/// `s.trim_matches('\0').trim()`: text received from a socket with the
/// padding zeros and surrounding whitespace removed.
pub fn trim_received_text(s: &str) -> (r: String)
    ensures
        r@ == trim_received(s@),
{
    let cs = chars_of(s);
    let t = trim_chars(cs.as_slice(), true);
    let u = trim_chars(t.as_slice(), false);
    string_from_chars(u.as_slice())
}


/// Scanning `s` left to right for `split_whitespace`: the words completed so
/// far and the word being read.
pub open spec fn words_scan(s: Seq<char>) -> (Seq<Seq<char>>, Seq<char>)
    decreases s.len(),
{
    if s.len() == 0 {
        (Seq::empty(), Seq::empty())
    } else {
        let (done, cur) = words_scan(s.drop_last());
        if is_white_space(s.last()) {
            if cur.len() > 0 {
                (done.push(cur), Seq::empty())
            } else {
                (done, Seq::empty())
            }
        } else {
            (done, cur.push(s.last()))
        }
    }
}

/// What `str::split_whitespace` yields: the maximal runs of characters that
/// are not Unicode whitespace, in order.
pub open spec fn split_ws(s: Seq<char>) -> Seq<Seq<char>> {
    let (done, cur) = words_scan(s);
    if cur.len() > 0 {
        done.push(cur)
    } else {
        done
    }
}

/// `line` without a final `'\r'`.
pub open spec fn strip_cr(line: Seq<char>) -> Seq<char> {
    if line.len() > 0 && line.last() == '\r' {
        line.drop_last()
    } else {
        line
    }
}

/// Scanning `s` left to right for `str::lines`: the lines completed so far
/// and the line being read.
pub open spec fn lines_scan(s: Seq<char>) -> (Seq<Seq<char>>, Seq<char>)
    decreases s.len(),
{
    if s.len() == 0 {
        (Seq::empty(), Seq::empty())
    } else {
        let (done, cur) = lines_scan(s.drop_last());
        if s.last() == '\n' {
            (done.push(strip_cr(cur)), Seq::empty())
        } else {
            (done, cur.push(s.last()))
        }
    }
}

/// What `str::lines` yields: the text split at each `'\n'`, a `'\r'` before
/// the `'\n'` dropped, and no empty line after a final `'\n'`.
pub open spec fn split_lines(s: Seq<char>) -> Seq<Seq<char>> {
    let (done, cur) = lines_scan(s);
    if cur.len() > 0 {
        done.push(cur)
    } else {
        done
    }
}

/// Whether `s` holds `"--"` starting at position `i`.
pub open spec fn comment_at(s: Seq<char>, i: int) -> bool {
    0 <= i && i + 1 < s.len() && s[i] == '-' && s[i + 1] == '-'
}

/// What `line.split("--").next()` yields: the text before the first `"--"`,
/// or the whole line.
pub open spec fn before_comment(line: Seq<char>) -> Seq<char> {
    if exists|i: int| comment_at(line, i) {
        let i = choose|i: int| comment_at(line, i) && forall|j: int| 0 <= j < i ==> !comment_at(line, j);
        line.take(i)
    } else {
        line
    }
}

/// The whitespace-separated words of `s`.
pub fn split_whitespace_chars(s: &[char]) -> (r: Vec<Vec<char>>)
    ensures
        r@.len() == split_ws(s@).len(),
        forall|k: int| 0 <= k < r@.len() ==> (#[trigger] r@[k])@ == split_ws(s@)[k],
{
    let mut done: Vec<Vec<char>> = Vec::new();
    let mut cur: Vec<char> = Vec::new();
    let mut i: usize = 0;
    while i < s.len()
        invariant
            i <= s@.len(),
            words_scan(s@.take(i as int)).1 == cur@,
            words_scan(s@.take(i as int)).0.len() == done@.len(),
            forall|k: int| 0 <= k < done@.len() ==> (#[trigger] done@[k])@ == words_scan(s@.take(i as int)).0[k],
        decreases s@.len() - i,
    {
        let c = s[i];
        assert(s@.take(i + 1).drop_last() == s@.take(i as int));
        if is_whitespace_char(c) {
            if cur.len() > 0 {
                let w = cur;
                done.push(w);
                cur = Vec::new();
            } else {
                cur = Vec::new();
            }
        } else {
            cur.push(c);
        }
        i = i + 1;
    }
    assert(s@.take(s@.len() as int) == s@);
    if cur.len() > 0 {
        done.push(cur);
    }
    done
}

/// The lines of `s`, as `str::lines` yields them.
pub fn lines_of(s: &[char]) -> (r: Vec<Vec<char>>)
    ensures
        r@.len() == split_lines(s@).len(),
        forall|k: int| 0 <= k < r@.len() ==> (#[trigger] r@[k])@ == split_lines(s@)[k],
{
    let mut done: Vec<Vec<char>> = Vec::new();
    let mut cur: Vec<char> = Vec::new();
    let mut i: usize = 0;
    while i < s.len()
        invariant
            i <= s@.len(),
            lines_scan(s@.take(i as int)).1 == cur@,
            lines_scan(s@.take(i as int)).0.len() == done@.len(),
            forall|k: int| 0 <= k < done@.len() ==> (#[trigger] done@[k])@ == lines_scan(s@.take(i as int)).0[k],
        decreases s@.len() - i,
    {
        let c = s[i];
        assert(s@.take(i + 1).drop_last() == s@.take(i as int));
        if c == '\n' {
            let mut line = cur;
            if line.len() > 0 && line[line.len() - 1] == '\r' {
                line.pop();
            }
            done.push(line);
            cur = Vec::new();
        } else {
            cur.push(c);
        }
        i = i + 1;
    }
    assert(s@.take(s@.len() as int) == s@);
    if cur.len() > 0 {
        done.push(cur);
    }
    done
}

/// The part of `line` before its first `"--"`.
pub fn strip_comment(line: &[char]) -> (r: Vec<char>)
    ensures
        r@ == before_comment(line@),
{
    let n = line.len();
    let mut i: usize = 0;
    while i < n && i + 1 < n
        invariant
            i <= n == line@.len(),
            forall|j: int| 0 <= j < i ==> !comment_at(line@, j),
        decreases n - i,
    {
        if line[i] == '-' && line[i + 1] == '-' {
            assert(comment_at(line@, i as int));
            let ghost k = choose|k: int| comment_at(line@, k) && forall|j: int| 0 <= j < k ==> !comment_at(line@, j);
            assert(k == i) by {
                if k < i {
                } else if k > i {
                    assert(!comment_at(line@, i as int));
                }
            }
            return copy_range(line, 0, i);
        }
        i = i + 1;
    }
    assert(!exists|j: int| comment_at(line@, j));
    assert(line@.subrange(0, n as int) == line@);
    copy_range(line, 0, n)
}

/// Whether `c` occurs in `s`.
pub fn contains_char(s: &[char], c: char) -> (r: bool)
    ensures
        r == s@.contains(c),
{
    let mut i: usize = 0;
    while i < s.len()
        invariant
            i <= s@.len(),
            forall|j: int| 0 <= j < i ==> s@[j] != c,
        decreases s@.len() - i,
    {
        if s[i] == c {
            assert(s@[i as int] == c);
            return true;
        }
        i = i + 1;
    }
    false
}

/// A line holds a first `"--"` wherever it holds one.
proof fn lemma_first_comment_exists(line: Seq<char>, n: int)
    requires
        comment_at(line, n),
    ensures
        exists|k: int| comment_at(line, k) && forall|j: int| 0 <= j < k ==> !comment_at(line, j),
    decreases n,
{
    if exists|j: int| 0 <= j < n && comment_at(line, j) {
        let j = choose|j: int| 0 <= j < n && comment_at(line, j);
        lemma_first_comment_exists(line, j);
    }
}

/// With its first `"--"` at `k`, a line keeps what comes before `k`.
proof fn lemma_before_first_comment(line: Seq<char>, k: int)
    requires
        comment_at(line, k),
        forall|j: int| 0 <= j < k ==> !comment_at(line, j),
    ensures
        before_comment(line) == line.take(k),
{
    lemma_first_comment_exists(line, k);
    let c = choose|i: int| comment_at(line, i) && forall|j: int| 0 <= j < i ==> !comment_at(line, j);
    assert(c == k) by {
        if c < k {
            assert(!comment_at(line, c));
        } else if c > k {
            assert(!comment_at(line, k));
        }
    }
}

/// What comes before the first `"--"` holds no `"--"`, so cutting again
/// changes nothing.
pub(crate) proof fn lemma_before_comment_idempotent(line: Seq<char>)
    ensures
        before_comment(before_comment(line)) == before_comment(line),
        forall|j: int| !comment_at(#[trigger] before_comment(line), j),
        before_comment(line).len() <= line.len(),
        before_comment(line) == line.take(before_comment(line).len() as int),
{
    if exists|i: int| comment_at(line, i) {
        let i = choose|i: int| comment_at(line, i);
        lemma_first_comment_exists(line, i);
        let k = choose|k: int| comment_at(line, k) && forall|j: int| 0 <= j < k ==> !comment_at(line, j);
        lemma_before_first_comment(line, k);
        let b = line.take(k);
        assert forall|j: int| !comment_at(b, j) by {
            if comment_at(b, j) {
                assert(b[j] == line[j] && b[j + 1] == line[j + 1]);
                assert(comment_at(line, j));
            }
        }
    } else {
        assert(line.take(line.len() as int) == line);
    }
}

/// A `'\r'` at the end of a line changes none of its words.
pub(crate) proof fn lemma_strip_cr_words(line: Seq<char>)
    ensures
        split_ws(before_comment(strip_cr(line))) == split_ws(before_comment(line)),
{
    if line.len() > 0 && line.last() == '\r' {
        let d = line.drop_last();
        assert(line == d.push('\r'));
        assert forall|i: int| comment_at(line, i) <==> comment_at(d, i) by {
            if comment_at(line, i) {
                assert(line[i] == d[i] && line[i + 1] == d[i + 1]);
            }
            if comment_at(d, i) {
                assert(line[i] == d[i] && line[i + 1] == d[i + 1]);
            }
        }
        if exists|i: int| comment_at(d, i) {
            let i = choose|i: int| comment_at(d, i);
            lemma_first_comment_exists(d, i);
            let k = choose|k: int| comment_at(d, k) && forall|j: int| 0 <= j < k ==> !comment_at(d, j);
            lemma_before_first_comment(d, k);
            lemma_before_first_comment(line, k);
            assert(line.take(k) == d.take(k));
        } else {
            assert(!exists|i: int| comment_at(line, i));
            assert(is_white_space('\r'));
            assert(line.drop_last() == d);
        }
    }
}

/// The lines and the open line of `p + q`, where `p` ends a line: those of
/// `p` followed by those of `q`.
pub(crate) proof fn lemma_lines_scan_append(p: Seq<char>, q: Seq<char>)
    requires
        lines_scan(p).1 == Seq::<char>::empty(),
    ensures
        lines_scan(p + q) == (lines_scan(p).0 + lines_scan(q).0, lines_scan(q).1),
    decreases q.len(),
{
    if q.len() == 0 {
        assert(p + q == p);
        assert(lines_scan(p).0 + lines_scan(q).0 == lines_scan(p).0);
    } else {
        let q0 = q.drop_last();
        lemma_lines_scan_append(p, q0);
        assert((p + q).drop_last() == p + q0);
        assert((p + q).last() == q.last());
        let (dq, cq) = lines_scan(q0);
        if q.last() == '\n' {
            assert((lines_scan(p).0 + dq).push(strip_cr(cq)) == lines_scan(p).0 + dq.push(strip_cr(cq)));
        }
    }
}

/// A text without `'\n'` is one open line.
pub(crate) proof fn lemma_lines_scan_one_line(s: Seq<char>)
    requires
        !s.contains('\n'),
    ensures
        lines_scan(s) == (Seq::<Seq<char>>::empty(), s),
    decreases s.len(),
{
    if s.len() > 0 {
        let s0 = s.drop_last();
        assert(!s0.contains('\n')) by {
            if s0.contains('\n') {
                let i = choose|i: int| 0 <= i < s0.len() && s0[i] == '\n';
                assert(s[i] == '\n');
            }
        }
        lemma_lines_scan_one_line(s0);
        assert(s[s.len() - 1] != '\n');
        assert(s0.push(s.last()) == s);
    }
}


/// Whether `c` is an ASCII decimal digit.
pub open spec fn is_digit(c: char) -> bool {
    '0' <= c <= '9'
}

/// The value of the ASCII digit `c`.
pub open spec fn digit_value(c: char) -> int {
    c as int - '0' as int
}

/// The ASCII digit for `d`, which lies in `0..10`.
pub open spec fn digit_char(d: int) -> char {
    (d + '0' as int) as char
}

/// Whether every character of `s` is an ASCII digit.
pub open spec fn all_digits(s: Seq<char>) -> bool {
    forall|i: int| 0 <= i < s.len() ==> is_digit(#[trigger] s[i])
}

/// The value of the decimal digits `s`, most significant first.
pub open spec fn digits_value(s: Seq<char>) -> int
    decreases s.len(),
{
    if s.len() == 0 {
        0
    } else {
        digits_value(s.drop_last()) * 10 + digit_value(s.last())
    }
}

/// The integer that `str::parse` reads from `s` for a signed integer type, before
/// the range check of the type: an optional `+` or `-` and at least one digit.
pub open spec fn parse_integer(s: Seq<char>) -> Option<int> {
    if s.len() > 0 && (s[0] == '+' || s[0] == '-') {
        let d = s.drop_first();
        if d.len() > 0 && all_digits(d) {
            Some(
                if s[0] == '-' {
                    -digits_value(d)
                } else {
                    digits_value(d)
                },
            )
        } else {
            None
        }
    } else if s.len() > 0 && all_digits(s) {
        Some(digits_value(s))
    } else {
        None
    }
}

/// What `s.parse::<i64>()` yields, `None` standing for the error.
pub open spec fn parse_i64_spec(s: Seq<char>) -> Option<int> {
    match parse_integer(s) {
        Some(v) => if i64::MIN <= v <= i64::MAX {
            Some(v)
        } else {
            None
        },
        None => None,
    }
}

/// What `s.parse::<i32>()` yields, `None` standing for the error.
pub open spec fn parse_i32_spec(s: Seq<char>) -> Option<int> {
    match parse_integer(s) {
        Some(v) => if i32::MIN <= v <= i32::MAX {
            Some(v)
        } else {
            None
        },
        None => None,
    }
}

/// The decimal digits of `n`, most significant first, without leading zeros.
pub open spec fn nat_digits(n: nat) -> Seq<char>
    decreases n,
{
    if n < 10 {
        seq![digit_char(n as int)]
    } else {
        nat_digits(n / 10).push(digit_char((n % 10) as int))
    }
}

/// How `{}` prints the integer `n`: a `-` for negative values, then its digits.
pub open spec fn decimal(n: int) -> Seq<char> {
    if n < 0 {
        seq!['-'] + nat_digits((-n) as nat)
    } else {
        nat_digits(n as nat)
    }
}

proof fn lemma_digits_value_mono(s: Seq<char>, i: int)
    requires
        0 <= i <= s.len(),
        all_digits(s),
    ensures
        0 <= digits_value(s.take(i)) <= digits_value(s),
    decreases s.len() - i,
{
    if i < s.len() {
        lemma_digits_value_mono(s, i + 1);
        assert(s.take(i + 1).drop_last() == s.take(i));
        assert(is_digit(s[i]));
    } else {
        assert(s.take(i) == s);
        lemma_digits_value_nonneg(s);
    }
}

proof fn lemma_digits_value_nonneg(s: Seq<char>)
    requires
        all_digits(s),
    ensures
        0 <= digits_value(s),
    decreases s.len(),
{
    if s.len() > 0 {
        assert(is_digit(s.last()));
        lemma_digits_value_nonneg(s.drop_last());
    }
}

/// Reads the magnitude `s[from..]`, all of whose characters must be digits; `None`
/// when it is not all digits, is empty, or exceeds `limit`.
fn read_digits(s: &[char], from: usize, limit: u64) -> (r: Option<u64>)
    requires
        from <= s@.len(),
    ensures
        ({
            let d = s@.skip(from as int);
            match r {
                Some(v) => d.len() > 0 && all_digits(d) && v == digits_value(d) && v <= limit,
                None => !(d.len() > 0 && all_digits(d)) || digits_value(d) > limit,
            }
        }),
{
    let ghost d = s@.skip(from as int);
    if from == s.len() {
        return None;
    }
    let mut acc: u64 = 0;
    let mut i: usize = from;
    while i < s.len()
        invariant
            from <= i <= s@.len(),
            d == s@.skip(from as int),
            all_digits(d.take(i - from)),
            acc == digits_value(d.take(i - from)),
            acc <= limit,
        decreases s@.len() - i,
    {
        let c = s[i];
        if !('0' <= c && c <= '9') {
            assert(d[i - from] == c);
            return None;
        }
        let dv = (c as u32 - '0' as u32) as u64;
        assert(d.take(i - from + 1).drop_last() == d.take(i - from));
        assert(d.take(i - from + 1).last() == c);
        if acc > limit / 10 || (acc == limit / 10 && dv > limit % 10) {
            proof {
                assert(all_digits(d.take(i - from + 1)));
                assert(acc * 10 + dv > limit) by (nonlinear_arith)
                    requires
                        acc > limit / 10 || (acc == limit / 10 && dv > limit % 10),
                        0 <= dv,
                ;
                if all_digits(d) {
                    lemma_digits_value_mono(d, i - from + 1);
                }
            }
            return None;
        }
        assert(acc * 10 + dv <= limit) by (nonlinear_arith)
            requires
                acc <= limit / 10,
                acc < limit / 10 || dv <= limit % 10,
                0 <= dv <= 9,
        ;
        acc = acc * 10 + dv;
        i = i + 1;
    }
    assert(d.take(s@.len() - from) == d);
    Some(acc)
}

/// `str::parse::<i64>`: the integer that `s` spells, if it is one and fits.
pub fn parse_i64(s: &[char]) -> (r: Option<i64>)
    ensures
        match r {
            Some(v) => parse_i64_spec(s@) == Some(v as int),
            None => parse_i64_spec(s@) is None,
        },
{
    if s.len() > 0 && (s[0] == '+' || s[0] == '-') {
        let neg = s[0] == '-';
        let limit: u64 = if neg { 9223372036854775808u64 } else { 9223372036854775807u64 };
        assert(s@.skip(1) == s@.drop_first());
        match read_digits(s, 1, limit) {
            Some(m) => {
                if neg {
                    if m == 9223372036854775808u64 {
                        Some(i64::MIN)
                    } else {
                        Some(-(m as i64))
                    }
                } else {
                    Some(m as i64)
                }
            },
            None => {
                proof {
                    let d = s@.drop_first();
                    if d.len() > 0 && all_digits(d) {
                        lemma_digits_value_nonneg(d);
                    }
                }
                None
            },
        }
    } else {
        assert(s@.skip(0) == s@);
        match read_digits(s, 0, 9223372036854775807u64) {
            Some(m) => Some(m as i64),
            None => None,
        }
    }
}

/// `str::parse::<i32>`: the integer that `s` spells, if it is one and fits.
pub fn parse_i32(s: &[char]) -> (r: Option<i32>)
    ensures
        match r {
            Some(v) => parse_i32_spec(s@) == Some(v as int),
            None => parse_i32_spec(s@) is None,
        },
{
    match parse_i64(s) {
        Some(v) => {
            if -2147483648 <= v && v <= 2147483647 {
                Some(v as i32)
            } else {
                None
            }
        },
        None => None,
    }
}

fn digit_to_char(d: u64) -> (c: char)
    requires
        d < 10,
    ensures
        c == digit_char(d as int),
{
    match d {
        0 => '0',
        1 => '1',
        2 => '2',
        3 => '3',
        4 => '4',
        5 => '5',
        6 => '6',
        7 => '7',
        8 => '8',
        _ => '9',
    }
}

fn nat_digits_of(n: u64) -> (r: Vec<char>)
    ensures
        r@ == nat_digits(n as nat),
    decreases n,
{
    let c = digit_to_char(n % 10);
    if n < 10 {
        let mut v: Vec<char> = Vec::new();
        v.push(c);
        assert(v@ == seq![digit_char(n as int)]);
        v
    } else {
        let mut v = nat_digits_of(n / 10);
        v.push(c);
        v
    }
}

/// How `{}` prints `n`.
pub fn decimal_chars(n: i64) -> (r: Vec<char>)
    ensures
        r@ == decimal(n as int),
{
    if n < 0 {
        let m: u64 = if n == i64::MIN { 9223372036854775808u64 } else { (-n) as u64 };
        let digits = nat_digits_of(m);
        let mut r: Vec<char> = Vec::new();
        r.push('-');
        let mut i: usize = 0;
        while i < digits.len()
            invariant
                i <= digits@.len(),
                r@ == seq!['-'] + digits@.take(i as int),
            decreases digits@.len() - i,
        {
            r.push(digits[i]);
            i = i + 1;
            assert(r@ == seq!['-'] + digits@.take(i as int));
        }
        assert(digits@.take(digits@.len() as int) == digits@);
        r
    } else {
        nat_digits_of(n as u64)
    }
}


proof fn lemma_nat_digits(m: nat)
    ensures
        nat_digits(m).len() > 0,
        all_digits(nat_digits(m)),
        digits_value(nat_digits(m)) == m,
    decreases m,
{
    if m >= 10 {
        lemma_nat_digits(m / 10);
        let s = nat_digits(m);
        assert(s.drop_last() == nat_digits(m / 10));
        assert forall|i: int| 0 <= i < s.len() implies is_digit(#[trigger] s[i]) by {
            if i < s.len() - 1 {
                assert(s[i] == nat_digits(m / 10)[i]);
            }
        }
        assert(m == (m / 10) * 10 + m % 10);
        assert(digit_value(digit_char((m % 10) as int)) == m % 10);
        assert(s.last() == digit_char((m % 10) as int));
        assert(digits_value(s) == digits_value(s.drop_last()) * 10 + digit_value(s.last()));
    } else {
        let s = nat_digits(m);
        assert(s.drop_last().len() == 0);
        assert(digits_value(s.drop_last()) == 0);
        assert(s.last() == digit_char(m as int));
        assert(is_digit(s[0]));
        assert(digit_value(digit_char(m as int)) == m);
    }
}

/// Printing an integer with `{}` and reading it back with `str::parse` gives
/// the same integer.
pub proof fn lemma_decimal_parse_roundtrip(n: int)
    ensures
        parse_integer(decimal(n)) == Some(n),
{
    if n < 0 {
        let m = (-n) as nat;
        lemma_nat_digits(m);
        let s = decimal(n);
        assert(s.drop_first() == nat_digits(m));
    } else {
        lemma_nat_digits(n as nat);
        let s = nat_digits(n as nat);
        assert(is_digit(s[0]));
    }
}

/// Appends the characters `cs` to `s`.
pub fn append_chars(s: &mut String, cs: &[char])
    ensures
        final(s)@ == old(s)@ + cs@,
{
    let mut i: usize = 0;
    while i < cs.len()
        invariant
            i <= cs@.len(),
            s@ == old(s)@ + cs@.take(i as int),
        decreases cs@.len() - i,
    {
        push_char(s, cs[i]);
        i = i + 1;
        assert(s@ == old(s)@ + cs@.take(i as int));
    }
    assert(cs@.take(cs@.len() as int) == cs@);
}

} // verus!
