//! Evaluating expressions and executing statements against an environment of
//! variables.
use vstd::prelude::*;

use crate::ast::{block_view, lemma_block_view, stmt_view, Expr, ExprView, Statement, StmtView};
use crate::protocol::text_eq;
use crate::text::{append_chars, chars_of, decimal, decimal_chars, string_from_chars};
use crate::token::{Token, TokenView};

verus! {

/// A runtime value. Floating-point values are not among them: an expression
/// that reaches a floating-point literal is not evaluated.
#[derive(Debug, PartialEq)]
pub enum RuntimeEval {
    Number(i64),
    Bool(bool),
    Str(String),
}

/// The value a [`RuntimeEval`] stands for.
pub enum ValueView {
    Number(int),
    Bool(bool),
    Str(Seq<char>),
}

impl View for RuntimeEval {
    type V = ValueView;

    open spec fn view(&self) -> ValueView {
        match self {
            RuntimeEval::Number(n) => ValueView::Number(*n as int),
            RuntimeEval::Bool(b) => ValueView::Bool(*b),
            RuntimeEval::Str(s) => ValueView::Str(s@),
        }
    }
}

impl RuntimeEval {
    /// A copy of this value.
    pub fn duplicate(&self) -> (r: RuntimeEval)
        ensures
            r@ == self@,
    {
        match self {
            RuntimeEval::Number(n) => RuntimeEval::Number(*n),
            RuntimeEval::Bool(b) => RuntimeEval::Bool(*b),
            RuntimeEval::Str(s) => RuntimeEval::Str(s.clone()),
        }
    }
}

/// The variables in `entries`, later entries taking precedence.
pub open spec fn entries_map(entries: Seq<(String, RuntimeEval)>) -> Map<Seq<char>, ValueView>
    decreases entries.len(),
{
    if entries.len() == 0 {
        Map::empty()
    } else {
        entries_map(entries.drop_last()).insert(entries.last().0@, entries.last().1@)
    }
}

/// No name occurs twice in `entries`.
pub open spec fn names_distinct(entries: Seq<(String, RuntimeEval)>) -> bool {
    forall|i: int, j: int|
        0 <= i < entries.len() && 0 <= j < entries.len() && i != j ==> (#[trigger] entries[i]).0@
            != (#[trigger] entries[j]).0@
}

proof fn lemma_entries_map_dom(entries: Seq<(String, RuntimeEval)>, k: Seq<char>)
    ensures
        entries_map(entries).contains_key(k) <==> exists|i: int|
            0 <= i < entries.len() && (#[trigger] entries[i]).0@ == k,
    decreases entries.len(),
{
    if entries.len() > 0 {
        let init = entries.drop_last();
        lemma_entries_map_dom(init, k);
        if entries_map(init).contains_key(k) {
            let i = choose|i: int| 0 <= i < init.len() && (#[trigger] init[i]).0@ == k;
            assert(entries[i] == init[i]);
        }
        if exists|i: int| 0 <= i < entries.len() && (#[trigger] entries[i]).0@ == k {
            let i = choose|i: int| 0 <= i < entries.len() && (#[trigger] entries[i]).0@ == k;
            if i < entries.len() - 1 {
                assert(init[i] == entries[i]);
            }
        }
    }
}

proof fn lemma_entries_map_at(entries: Seq<(String, RuntimeEval)>, i: int)
    requires
        names_distinct(entries),
        0 <= i < entries.len(),
    ensures
        entries_map(entries).contains_key(entries[i].0@),
        entries_map(entries)[entries[i].0@] == entries[i].1@,
    decreases entries.len(),
{
    if i < entries.len() - 1 {
        let init = entries.drop_last();
        assert(init[i] == entries[i]);
        assert forall|a: int, b: int|
            0 <= a < init.len() && 0 <= b < init.len() && a != b implies (#[trigger] init[a]).0@
            != (#[trigger] init[b]).0@ by {
            assert(init[a] == entries[a] && init[b] == entries[b]);
        }
        lemma_entries_map_at(init, i);
        assert(entries[i].0@ != entries.last().0@);
    }
}

proof fn lemma_entries_map_update(entries: Seq<(String, RuntimeEval)>, i: int, e: (String, RuntimeEval))
    requires
        names_distinct(entries),
        0 <= i < entries.len(),
        e.0@ == entries[i].0@,
    ensures
        names_distinct(entries.update(i, e)),
        entries_map(entries.update(i, e)) == entries_map(entries).insert(e.0@, e.1@),
{
    let u = entries.update(i, e);
    assert forall|a: int, b: int|
        0 <= a < u.len() && 0 <= b < u.len() && a != b implies (#[trigger] u[a]).0@
        != (#[trigger] u[b]).0@ by {
        assert(u[a].0@ == entries[a].0@ && u[b].0@ == entries[b].0@);
    }
    let lhs = entries_map(u);
    let rhs = entries_map(entries).insert(e.0@, e.1@);
    assert forall|k: Seq<char>| lhs.contains_key(k) <==> rhs.contains_key(k) by {
        lemma_entries_map_dom(u, k);
        lemma_entries_map_dom(entries, k);
        if exists|j: int| 0 <= j < u.len() && (#[trigger] u[j]).0@ == k {
            let j = choose|j: int| 0 <= j < u.len() && (#[trigger] u[j]).0@ == k;
            assert(entries[j].0@ == k);
        }
        if exists|j: int| 0 <= j < entries.len() && (#[trigger] entries[j]).0@ == k {
            let j = choose|j: int| 0 <= j < entries.len() && (#[trigger] entries[j]).0@ == k;
            assert(u[j].0@ == k);
        }
    }
    assert forall|k: Seq<char>| lhs.contains_key(k) implies lhs[k] == rhs[k] by {
        lemma_entries_map_dom(u, k);
        let j = choose|j: int| 0 <= j < u.len() && (#[trigger] u[j]).0@ == k;
        lemma_entries_map_at(u, j);
        if j != i {
            lemma_entries_map_at(entries, j);
        }
    }
    assert(lhs =~= rhs);
}

proof fn lemma_entries_map_len(entries: Seq<(String, RuntimeEval)>)
    requires
        names_distinct(entries),
    ensures
        entries_map(entries).dom().finite(),
        entries_map(entries).len() == entries.len(),
    decreases entries.len(),
{
    if entries.len() > 0 {
        let init = entries.drop_last();
        assert forall|a: int, b: int|
            0 <= a < init.len() && 0 <= b < init.len() && a != b implies (#[trigger] init[a]).0@
            != (#[trigger] init[b]).0@ by {
            assert(init[a] == entries[a] && init[b] == entries[b]);
        }
        lemma_entries_map_len(init);
        lemma_entries_map_dom(init, entries.last().0@);
        if entries_map(init).contains_key(entries.last().0@) {
            let i = choose|i: int| 0 <= i < init.len() && (#[trigger] init[i]).0@ == entries.last().0@;
            assert(init[i] == entries[i]);
        }
    }
}

/// The variables of a running program: each name bound to one value.
#[derive(Debug)]
pub struct Env {
    entries: Vec<(String, RuntimeEval)>,
}

impl View for Env {
    type V = Map<Seq<char>, ValueView>;

    closed spec fn view(&self) -> Map<Seq<char>, ValueView> {
        entries_map(self.entries@)
    }
}

impl Env {
    #[verifier::type_invariant]
    spec fn inv(self) -> bool {
        names_distinct(self.entries@)
    }

    /// An environment without variables.
    pub fn new() -> (e: Self)
        ensures
            e@ == Map::<Seq<char>, ValueView>::empty(),
    {
        Env { entries: Vec::new() }
    }

    /// The position of `name` among the entries, if it is bound.
    fn find(&self, name: &str) -> (r: Option<usize>)
        ensures
            match r {
                Some(i) => i < self.entries@.len() && self.entries@[i as int].0@ == name@,
                None => forall|j: int| 0 <= j < self.entries@.len() ==> (#[trigger] self.entries@[j]).0@ != name@,
            },
    {
        let mut i: usize = 0;
        while i < self.entries.len()
            invariant
                i <= self.entries@.len(),
                forall|j: int| 0 <= j < i ==> (#[trigger] self.entries@[j]).0@ != name@,
            decreases self.entries@.len() - i,
        {
            if text_eq(self.entries[i].0.as_str(), name) {
                return Some(i);
            }
            i = i + 1;
        }
        None
    }

    /// The value bound to `name`, if any.
    pub fn get(&self, name: &str) -> (r: Option<&RuntimeEval>)
        ensures
            match r {
                Some(v) => self@.contains_key(name@) && self@[name@] == v@,
                None => !self@.contains_key(name@),
            },
    {
        proof {
            use_type_invariant(self);
        }
        match self.find(name) {
            Some(i) => {
                proof {
                    lemma_entries_map_at(self.entries@, i as int);
                }
                Some(&self.entries[i].1)
            },
            None => {
                proof {
                    lemma_entries_map_dom(self.entries@, name@);
                }
                None
            },
        }
    }

    /// Whether `name` is bound.
    pub fn contains_key(&self, name: &str) -> (r: bool)
        ensures
            r == self@.contains_key(name@),
    {
        match self.get(name) {
            Some(_) => true,
            None => false,
        }
    }

    /// Binds `name` to `value`, replacing an earlier binding.
    pub fn insert(&mut self, name: String, value: RuntimeEval)
        ensures
            final(self)@ == old(self)@.insert(name@, value@),
    {
        proof {
            use_type_invariant(&*self);
        }
        match self.find(name.as_str()) {
            Some(i) => {
                let ghost e = (name, value);
                proof {
                    lemma_entries_map_update(self.entries@, i as int, (name, value));
                }
                let mut entries: Vec<(String, RuntimeEval)> = Vec::new();
                std::mem::swap(&mut entries, &mut self.entries);
                entries.set(i, (name, value));
                self.entries = entries;
            },
            None => {
                proof {
                    assert forall|a: int, b: int|
                        0 <= a < self.entries@.push((name, value)).len() && 0 <= b
                            < self.entries@.push((name, value)).len() && a != b implies (
                    #[trigger] self.entries@.push((name, value))[a]).0@ != (
                    #[trigger] self.entries@.push((name, value))[b]).0@ by {
                        let s = self.entries@.push((name, value));
                        if a < self.entries@.len() && b < self.entries@.len() {
                            assert(s[a] == self.entries@[a] && s[b] == self.entries@[b]);
                        } else if a < self.entries@.len() {
                            assert(s[a] == self.entries@[a]);
                        } else {
                            assert(s[b] == self.entries@[b]);
                        }
                    }
                    assert(self.entries@.push((name, value)).drop_last() == self.entries@);
                }
                let mut entries: Vec<(String, RuntimeEval)> = Vec::new();
                std::mem::swap(&mut entries, &mut self.entries);
                entries.push((name, value));
                self.entries = entries;
            },
        }
    }

    /// The bound names: one for each binding, and every bound name among them.
    pub fn names(&self) -> (r: Vec<String>)
        ensures
            r@.len() == self@.len(),
            forall|i: int| 0 <= i < r@.len() ==> self@.contains_key(#[trigger] r@[i]@),
            forall|k: Seq<char>| #[trigger] self@.contains_key(k) ==> exists|i: int|
                0 <= i < r@.len() && (#[trigger] r@[i])@ == k,
    {
        proof {
            use_type_invariant(self);
            lemma_entries_map_len(self.entries@);
        }
        let mut r: Vec<String> = Vec::new();
        let mut i: usize = 0;
        while i < self.entries.len()
            invariant
                i <= self.entries@.len(),
                r@.len() == i,
                forall|k: int| 0 <= k < i ==> (#[trigger] r@[k])@ == self.entries@[k].0@,
            decreases self.entries@.len() - i,
        {
            r.push(self.entries[i].0.clone());
            i = i + 1;
        }
        proof {
            assert forall|j: int| 0 <= j < r@.len() implies self@.contains_key(#[trigger] r@[j]@) by {
                lemma_entries_map_dom(self.entries@, r@[j]@);
                assert(self.entries@[j].0@ == r@[j]@);
            }
            assert forall|k: Seq<char>| #[trigger] self@.contains_key(k) implies exists|j: int|
                0 <= j < r@.len() && (#[trigger] r@[j])@ == k by {
                lemma_entries_map_dom(self.entries@, k);
                let j = choose|j: int| 0 <= j < self.entries@.len() && (#[trigger] self.entries@[j]).0@ == k;
                assert(r@[j]@ == k);
            }
        }
        r
    }

    /// The number of bound names.
    pub fn len(&self) -> (r: usize)
        ensures
            r == self@.len(),
    {
        proof {
            use_type_invariant(self);
            lemma_entries_map_len(self.entries@);
        }
        self.entries.len()
    }
}


/// Whether `v` fits in an `i64`.
pub open spec fn fits_i64(v: int) -> bool {
    i64::MIN <= v <= i64::MAX
}

/// Where a value's kind stands in the order of values: numbers, then
/// floating-point values, then booleans, then texts.
pub open spec fn kind_rank(v: ValueView) -> int {
    match v {
        ValueView::Number(_) => 0,
        ValueView::Bool(_) => 2,
        ValueView::Str(_) => 3,
    }
}

/// Whether the text `x` comes before `y`, character by character.
pub open spec fn text_lt(x: Seq<char>, y: Seq<char>) -> bool
    decreases x.len(),
{
    if x.len() == 0 {
        y.len() > 0
    } else if y.len() == 0 {
        false
    } else if x[0] != y[0] {
        (x[0] as u32) < (y[0] as u32)
    } else {
        text_lt(x.drop_first(), y.drop_first())
    }
}

/// Whether `a` comes before `b`: values of different kinds by kind, numbers by
/// value, `false` before `true`, texts character by character.
pub open spec fn value_lt(a: ValueView, b: ValueView) -> bool {
    if kind_rank(a) != kind_rank(b) {
        kind_rank(a) < kind_rank(b)
    } else {
        match (a, b) {
            (ValueView::Number(x), ValueView::Number(y)) => x < y,
            (ValueView::Bool(x), ValueView::Bool(y)) => !x && y,
            (ValueView::Str(x), ValueView::Str(y)) => text_lt(x, y),
            _ => false,
        }
    }
}

/// The result of comparing `l` and `r` with the operator `op`; `None` for a
/// token that is no comparison operator.
pub open spec fn compare_values(op: TokenView, l: ValueView, r: ValueView) -> Option<ValueView> {
    match op {
        TokenView::EQ => Some(ValueView::Bool(l == r)),
        TokenView::UNEQ => Some(ValueView::Bool(l != r)),
        TokenView::GT => Some(ValueView::Bool(value_lt(r, l))),
        TokenView::GE => Some(ValueView::Bool(value_lt(r, l) || l == r)),
        TokenView::LT => Some(ValueView::Bool(value_lt(l, r))),
        TokenView::LE => Some(ValueView::Bool(value_lt(l, r) || l == r)),
        _ => None,
    }
}

/// `s` written `n` times.
pub open spec fn repeat_text(s: Seq<char>, n: nat) -> Seq<char>
    decreases n,
{
    if n == 0 {
        Seq::empty()
    } else {
        repeat_text(s, (n - 1) as nat) + s
    }
}

/// `s` repeated `n` times, or `None` where `str::repeat` panics: a negative
/// count, or more bytes than an allocation can hold.
pub open spec fn repeat_value(s: Seq<char>, n: int) -> Option<ValueView> {
    if n < 0 {
        None
    } else if vstd::utf8::encode_utf8(s).len() * n > isize::MAX {
        None
    } else {
        Some(ValueView::Str(repeat_text(s, n as nat)))
    }
}

/// `l + r`: numbers add (without overflow), and a text joined with a number or
/// a text gives the joined text.
pub open spec fn add_values(l: ValueView, r: ValueView) -> Option<ValueView> {
    match (l, r) {
        (ValueView::Number(a), ValueView::Number(b)) => if fits_i64(a + b) {
            Some(ValueView::Number(a + b))
        } else {
            None
        },
        (ValueView::Str(a), ValueView::Number(b)) => Some(ValueView::Str(a + decimal(b))),
        (ValueView::Number(a), ValueView::Str(b)) => Some(ValueView::Str(decimal(a) + b)),
        (ValueView::Str(a), ValueView::Str(b)) => Some(ValueView::Str(a + b)),
        _ => None,
    }
}

/// `l - r` on numbers, without overflow.
pub open spec fn sub_values(l: ValueView, r: ValueView) -> Option<ValueView> {
    match (l, r) {
        (ValueView::Number(a), ValueView::Number(b)) => if fits_i64(a - b) {
            Some(ValueView::Number(a - b))
        } else {
            None
        },
        _ => None,
    }
}

/// `l * r`: numbers multiply (without overflow); a number and a text repeat the
/// text.
pub open spec fn mul_values(l: ValueView, r: ValueView) -> Option<ValueView> {
    match (l, r) {
        (ValueView::Number(a), ValueView::Number(b)) => if fits_i64(a * b) {
            Some(ValueView::Number(a * b))
        } else {
            None
        },
        (ValueView::Number(a), ValueView::Str(b)) => repeat_value(b, a),
        (ValueView::Str(a), ValueView::Number(b)) => repeat_value(a, b),
        _ => None,
    }
}

/// Division of integers rounding toward zero.
pub open spec fn trunc_div(a: int, b: int) -> int {
    let q = abs(a) / abs(b);
    if (a < 0) == (b < 0) {
        q
    } else {
        -q
    }
}

/// The absolute value.
pub open spec fn abs(a: int) -> int {
    if a < 0 {
        -a
    } else {
        a
    }
}

/// `l / r` on numbers: not by zero, and not where the quotient overflows.
pub open spec fn div_values(l: ValueView, r: ValueView) -> Option<ValueView> {
    match (l, r) {
        (ValueView::Number(a), ValueView::Number(b)) => if b == 0 || !fits_i64(trunc_div(a, b)) {
            None
        } else {
            Some(ValueView::Number(trunc_div(a, b)))
        },
        _ => None,
    }
}

/// The value of a literal token; `None` for an unbound variable, a
/// floating-point literal, or a token that is no literal.
pub open spec fn literal_value(t: TokenView, env: Map<Seq<char>, ValueView>) -> Option<ValueView> {
    match t {
        TokenView::Number(n) => Some(ValueView::Number(n)),
        TokenView::Bool(b) => Some(ValueView::Bool(b)),
        TokenView::Var(name) => if env.contains_key(name) {
            Some(env[name])
        } else {
            None
        },
        TokenView::Str(s) => Some(ValueView::Str(s)),
        _ => None,
    }
}

/// The value of `e` in `env`; `None` where evaluating it panics or reaches a
/// floating-point literal.
pub open spec fn eval(e: ExprView, env: Map<Seq<char>, ValueView>) -> Option<ValueView>
    decreases e,
{
    match e {
        ExprView::Literal(t) => literal_value(t, env),
        ExprView::Comparison(l, op, r) => match (eval(*l, env), eval(*r, env)) {
            (Some(a), Some(b)) => compare_values(op, a, b),
            _ => None,
        },
        ExprView::Addition(l, r) => match (eval(*l, env), eval(*r, env)) {
            (Some(a), Some(b)) => add_values(a, b),
            _ => None,
        },
        ExprView::Subtraction(l, r) => match (eval(*l, env), eval(*r, env)) {
            (Some(a), Some(b)) => sub_values(a, b),
            _ => None,
        },
        ExprView::Multiplication(l, r) => match (eval(*l, env), eval(*r, env)) {
            (Some(a), Some(b)) => mul_values(a, b),
            _ => None,
        },
        ExprView::Division(l, r) => match (eval(*l, env), eval(*r, env)) {
            (Some(a), Some(b)) => div_values(a, b),
            _ => None,
        },
    }
}


/// Whether the text `x` comes before `y`.
fn text_less(x: &[char], y: &[char]) -> (r: bool)
    ensures
        r == text_lt(x@, y@),
{
    let mut i: usize = 0;
    assert(x@.skip(0) == x@ && y@.skip(0) == y@);
    while i < x.len() && i < y.len() && x[i] == y[i]
        invariant
            i <= x@.len(),
            i <= y@.len(),
            text_lt(x@, y@) == text_lt(x@.skip(i as int), y@.skip(i as int)),
        decreases x@.len() - i,
    {
        assert(x@.skip(i as int).drop_first() == x@.skip(i + 1));
        assert(y@.skip(i as int).drop_first() == y@.skip(i + 1));
        i = i + 1;
    }
    let ghost xs = x@.skip(i as int);
    let ghost ys = y@.skip(i as int);
    if i == x.len() {
        assert(xs.len() == 0);
        i < y.len()
    } else if i == y.len() {
        assert(xs.len() > 0 && ys.len() == 0);
        false
    } else {
        assert(xs[0] == x@[i as int] && ys[0] == y@[i as int]);
        (x[i] as u32) < (y[i] as u32)
    }
}

/// Whether `a` comes before `b`.
fn values_less(a: &RuntimeEval, b: &RuntimeEval) -> (r: bool)
    ensures
        r == value_lt(a@, b@),
{
    match (a, b) {
        (RuntimeEval::Number(x), RuntimeEval::Number(y)) => *x < *y,
        (RuntimeEval::Bool(x), RuntimeEval::Bool(y)) => !*x && *y,
        (RuntimeEval::Str(x), RuntimeEval::Str(y)) => {
            let xs = chars_of(x.as_str());
            let ys = chars_of(y.as_str());
            text_less(xs.as_slice(), ys.as_slice())
        },
        (RuntimeEval::Number(_), _) => true,
        (RuntimeEval::Bool(_), RuntimeEval::Number(_)) => false,
        (RuntimeEval::Bool(_), RuntimeEval::Str(_)) => true,
        (RuntimeEval::Str(_), _) => false,
    }
}

/// Whether `a` and `b` are the same value.
fn values_equal(a: &RuntimeEval, b: &RuntimeEval) -> (r: bool)
    ensures
        r == (a@ == b@),
{
    match (a, b) {
        (RuntimeEval::Number(x), RuntimeEval::Number(y)) => *x == *y,
        (RuntimeEval::Bool(x), RuntimeEval::Bool(y)) => *x == *y,
        (RuntimeEval::Str(x), RuntimeEval::Str(y)) => text_eq(x.as_str(), y.as_str()),
        _ => false,
    }
}

/// The comparison of `l` and `r` by `op`.
fn compare(op: &Token, l: &RuntimeEval, r: &RuntimeEval) -> (v: Option<RuntimeEval>)
    ensures
        opt_value_view(v) == compare_values(op@, l@, r@),
{
    match op {
        Token::EQ => Some(RuntimeEval::Bool(values_equal(l, r))),
        Token::UNEQ => Some(RuntimeEval::Bool(!values_equal(l, r))),
        Token::GT => Some(RuntimeEval::Bool(values_less(r, l))),
        Token::GE => Some(RuntimeEval::Bool(values_less(r, l) || values_equal(l, r))),
        Token::LT => Some(RuntimeEval::Bool(values_less(l, r))),
        Token::LE => Some(RuntimeEval::Bool(values_less(l, r) || values_equal(l, r))),
        _ => None,
    }
}

/// The value of an optional runtime value.
pub open spec fn opt_value_view(v: Option<RuntimeEval>) -> Option<ValueView> {
    match v {
        Some(v) => Some(v@),
        None => None,
    }
}

/// An `i128` that fits in an `i64`, as a number value.
fn number_in_range(v: i128) -> (r: Option<RuntimeEval>)
    ensures
        opt_value_view(r) == if fits_i64(v as int) {
            Some(ValueView::Number(v as int))
        } else {
            None
        },
{
    if -9223372036854775808i128 <= v && v <= 9223372036854775807i128 {
        Some(RuntimeEval::Number(v as i64))
    } else {
        None
    }
}

/// A copy of `a` followed by `b`.
fn joined(a: &str, b: &[char]) -> (r: String)
    ensures
        r@ == a@ + b@,
{
    let mut r = a.to_owned();
    append_chars(&mut r, b);
    r
}

proof fn lemma_repeat_empty(s: Seq<char>, n: nat)
    requires
        s.len() == 0,
    ensures
        repeat_text(s, n) == Seq::<char>::empty(),
    decreases n,
{
    if n > 0 {
        lemma_repeat_empty(s, (n - 1) as nat);
    }
}

/// `s` repeated `n` times, where `str::repeat` would not panic.
fn repeat_string(s: &String, n: i64) -> (r: Option<RuntimeEval>)
    ensures
        opt_value_view(r) == repeat_value(s@, n as int),
{
    if n < 0 {
        return None;
    }
    let st = s.as_str();
    let bytes = st.as_bytes().len();
    let b128 = bytes as u128;
    let n128 = n as u128;
    assert(b128 * n128 <= u128::MAX) by (nonlinear_arith)
        requires
            0 <= b128 <= 18446744073709551615u128,
            0 <= n128 <= 9223372036854775807u128,
    ;
    let total: u128 = b128 * n128;
    assert(vstd::utf8::encode_utf8(s@).len() == b128 as int);
    assert(n as int == n128 as int);
    assert(vstd::utf8::encode_utf8(s@).len() * (n as int) == total as int);
    if total > isize::MAX as u128 {
        return None;
    }
    let cs = chars_of(s.as_str());
    let mut r = String::new();
    if cs.len() == 0 {
        proof {
            lemma_repeat_empty(s@, n as nat);
        }
        return Some(RuntimeEval::Str(r));
    }
    let mut i: u64 = 0;
    while i < n as u64
        invariant
            i <= n,
            r@ == repeat_text(s@, i as nat),
        decreases n - i,
    {
        r.append(s.as_str());
        i = i + 1;
    }
    Some(RuntimeEval::Str(r))
}


/// `l + r`.
fn add_runtime(l: RuntimeEval, r: RuntimeEval) -> (v: Option<RuntimeEval>)
    ensures
        opt_value_view(v) == add_values(l@, r@),
{
    match (l, r) {
        (RuntimeEval::Number(a), RuntimeEval::Number(b)) => number_in_range(a as i128 + b as i128),
        (RuntimeEval::Str(a), RuntimeEval::Number(b)) => {
            let d = decimal_chars(b);
            Some(RuntimeEval::Str(joined(a.as_str(), d.as_slice())))
        },
        (RuntimeEval::Number(a), RuntimeEval::Str(b)) => {
            let d = string_from_chars(decimal_chars(a).as_slice());
            let bs = chars_of(b.as_str());
            Some(RuntimeEval::Str(joined(d.as_str(), bs.as_slice())))
        },
        (RuntimeEval::Str(a), RuntimeEval::Str(b)) => {
            let bs = chars_of(b.as_str());
            Some(RuntimeEval::Str(joined(a.as_str(), bs.as_slice())))
        },
        _ => None,
    }
}

/// `l - r`.
fn sub_runtime(l: RuntimeEval, r: RuntimeEval) -> (v: Option<RuntimeEval>)
    ensures
        opt_value_view(v) == sub_values(l@, r@),
{
    match (l, r) {
        (RuntimeEval::Number(a), RuntimeEval::Number(b)) => number_in_range(a as i128 - b as i128),
        _ => None,
    }
}

/// `l * r`.
fn mul_runtime(l: RuntimeEval, r: RuntimeEval) -> (v: Option<RuntimeEval>)
    ensures
        opt_value_view(v) == mul_values(l@, r@),
{
    match (l, r) {
        (RuntimeEval::Number(a), RuntimeEval::Number(b)) => {
            let x = a as i128;
            let y = b as i128;
            assert(-85070591730234615865843651857942052864 <= x * y <= 85070591730234615865843651857942052864)
                by (nonlinear_arith)
                requires
                    -9223372036854775808 <= x <= 9223372036854775807,
                    -9223372036854775808 <= y <= 9223372036854775807,
            ;
            number_in_range(x * y)
        },
        (RuntimeEval::Number(a), RuntimeEval::Str(b)) => repeat_string(&b, a),
        (RuntimeEval::Str(a), RuntimeEval::Number(b)) => repeat_string(&a, b),
        _ => None,
    }
}

/// `l / r`.
fn div_runtime(l: RuntimeEval, r: RuntimeEval) -> (v: Option<RuntimeEval>)
    ensures
        opt_value_view(v) == div_values(l@, r@),
{
    match (l, r) {
        (RuntimeEval::Number(a), RuntimeEval::Number(b)) => {
            if b == 0 {
                return None;
            }
            let ua: u128 = if a < 0 { (-(a as i128)) as u128 } else { a as u128 };
            let ub: u128 = if b < 0 { (-(b as i128)) as u128 } else { b as u128 };
            assert(ua as int == abs(a as int) && ub as int == abs(b as int));
            let q: u128 = ua / ub;
            assert(q <= ua) by (nonlinear_arith)
                requires
                    q == ua / ub,
                    ub >= 1,
            ;
            let v: i128 = if (a < 0) == (b < 0) { q as i128 } else { -(q as i128) };
            number_in_range(v)
        },
        _ => None,
    }
}

/// The value of a literal token.
fn literal(t: &Token, env: &Env) -> (v: Option<RuntimeEval>)
    ensures
        opt_value_view(v) == literal_value(t@, env@),
{
    match t {
        Token::Number(n) => Some(RuntimeEval::Number(*n)),
        Token::Bool(b) => Some(RuntimeEval::Bool(*b)),
        Token::Var(name) => match env.get(name.as_str()) {
            Some(v) => Some(v.duplicate()),
            None => None,
        },
        Token::Str(s) => Some(RuntimeEval::Str(s.clone())),
        _ => None,
    }
}

/// The value of `expr` in `env`, or `None` where evaluating it panics (an
/// unbound variable, operands of the wrong kinds, an overflow, a division by
/// zero, a negative or oversized repetition) or reaches a floating-point
/// literal.
pub fn try_evaluate_expr(expr: &Expr, env: &Env) -> (r: Option<RuntimeEval>)
    ensures
        opt_value_view(r) == eval(expr@, env@),
    decreases expr,
{
    match expr {
        Expr::Literal(t) => literal(t, env),
        Expr::Comparison(l, op, r) => {
            let a = match try_evaluate_expr(l, env) {
                Some(a) => a,
                None => return None,
            };
            let b = match try_evaluate_expr(r, env) {
                Some(b) => b,
                None => return None,
            };
            compare(op, &a, &b)
        },
        Expr::Addition(l, r) => {
            let a = match try_evaluate_expr(l, env) {
                Some(a) => a,
                None => return None,
            };
            let b = match try_evaluate_expr(r, env) {
                Some(b) => b,
                None => return None,
            };
            add_runtime(a, b)
        },
        Expr::Subtraction(l, r) => {
            let a = match try_evaluate_expr(l, env) {
                Some(a) => a,
                None => return None,
            };
            let b = match try_evaluate_expr(r, env) {
                Some(b) => b,
                None => return None,
            };
            sub_runtime(a, b)
        },
        Expr::Multiplication(l, r) => {
            let a = match try_evaluate_expr(l, env) {
                Some(a) => a,
                None => return None,
            };
            let b = match try_evaluate_expr(r, env) {
                Some(b) => b,
                None => return None,
            };
            mul_runtime(a, b)
        },
        Expr::Division(l, r) => {
            let a = match try_evaluate_expr(l, env) {
                Some(a) => a,
                None => return None,
            };
            let b = match try_evaluate_expr(r, env) {
                Some(b) => b,
                None => return None,
            };
            div_runtime(a, b)
        },
    }
}

/// The value of `expr` in `env`, which must evaluate (see
/// [`try_evaluate_expr`]).
pub fn evaluate_expr(expr: &Expr, env: &Env) -> (r: RuntimeEval)
    requires
        eval(expr@, env@) is Some,
    ensures
        r@ == eval(expr@, env@)->0,
{
    match try_evaluate_expr(expr, env) {
        Some(v) => v,
        None => RuntimeEval::Bool(false),
    }
}


/// How running a statement ended, and the variables after it.
pub enum RunView {
    /// It ran to its end, leaving these variables.
    Done(Map<Seq<char>, ValueView>),
    /// It panics: an expression that does not evaluate, or an `if` whose
    /// condition is not a boolean.
    Failed,
    /// The loops ran out of their allowance of iterations.
    OutOfFuel,
}

/// Running `s` in `env` with `fuel` loop iterations allowed on each nesting
/// path.
pub open spec fn run_stmt(s: StmtView, env: Map<Seq<char>, ValueView>, fuel: nat) -> RunView
    decreases fuel, s,
{
    match s {
        StmtView::LET(name, e) => match eval(e, env) {
            Some(v) => RunView::Done(env.insert(name, v)),
            None => RunView::Failed,
        },
        StmtView::ASSIGN(name, e) => match eval(e, env) {
            Some(v) => RunView::Done(env.insert(name, v)),
            None => RunView::Failed,
        },
        StmtView::Expr(e) => match eval(e, env) {
            Some(_) => RunView::Done(env),
            None => RunView::Failed,
        },
        StmtView::IF(c, body) => match eval(c, env) {
            Some(ValueView::Bool(true)) => run_block(body, env, fuel),
            Some(ValueView::Bool(false)) => RunView::Done(env),
            _ => RunView::Failed,
        },
        StmtView::WHILE(c, body) => run_while(c, body, env, fuel),
    }
}

/// Running `while c do body end` in `env`: the body runs while `c` evaluates to
/// `true`; any other value ends the loop.
pub open spec fn run_while(c: ExprView, body: Seq<StmtView>, env: Map<Seq<char>, ValueView>, fuel: nat) -> RunView
    decreases fuel, body,
{
    if fuel == 0 {
        RunView::OutOfFuel
    } else {
        match eval(c, env) {
            None => RunView::Failed,
            Some(ValueView::Bool(true)) => match run_block(body, env, (fuel - 1) as nat) {
                RunView::Done(next) => run_while(c, body, next, (fuel - 1) as nat),
                other => other,
            },
            Some(_) => RunView::Done(env),
        }
    }
}

/// Running the statements `b` one after another.
pub open spec fn run_block(b: Seq<StmtView>, env: Map<Seq<char>, ValueView>, fuel: nat) -> RunView
    decreases fuel, b,
{
    if b.len() == 0 {
        RunView::Done(env)
    } else {
        match run_stmt(b[0], env, fuel) {
            RunView::Done(next) => run_block(b.subrange(1, b.len() as int), next, fuel),
            other => other,
        }
    }
}


/// How running a statement ended.
#[derive(Debug, PartialEq, Eq, Structural)]
pub enum RunStatus {
    /// It ran to its end.
    Done,
    /// It panics: an expression that does not evaluate (or reaches a
    /// floating-point literal), or an `if` whose condition is not a boolean.
    Failed,
    /// The loops ran out of their allowance of iterations.
    OutOfFuel,
}

/// `r` and `after` report the run `rv`.
pub open spec fn reports(rv: RunView, r: RunStatus, after: Map<Seq<char>, ValueView>) -> bool {
    match rv {
        RunView::Done(e) => r == RunStatus::Done && after == e,
        RunView::Failed => r == RunStatus::Failed,
        RunView::OutOfFuel => r == RunStatus::OutOfFuel,
    }
}

/// Whether `budget`, when there is one, equals `fuel`.
pub open spec fn budget_is(budget: Option<u64>, fuel: nat) -> bool {
    budget matches Some(b) ==> b as nat == fuel
}

/// Runs `stmt`, updating `env`, with `fuel` loop iterations allowed on each
/// nesting path: counted at run time when `budget` holds it, else known to
/// suffice.
fn run_statement(stmt: &Statement, env: &mut Env, budget: Option<u64>, Ghost(fuel): Ghost<nat>) -> (r: RunStatus)
    requires
        budget_is(budget, fuel),
        budget is None ==> run_stmt(stmt@, old(env)@, fuel) is Done,
    ensures
        reports(run_stmt(stmt@, old(env)@, fuel), r, final(env)@),
    decreases fuel, stmt,
{
    match stmt {
        Statement::LET(name, e) => match try_evaluate_expr(e, env) {
            Some(v) => {
                env.insert(name.clone(), v);
                RunStatus::Done
            },
            None => RunStatus::Failed,
        },
        Statement::ASSIGN(name, e) => match try_evaluate_expr(e, env) {
            Some(v) => {
                env.insert(name.clone(), v);
                RunStatus::Done
            },
            None => RunStatus::Failed,
        },
        Statement::Expr(e) => match try_evaluate_expr(e, env) {
            Some(_) => RunStatus::Done,
            None => RunStatus::Failed,
        },
        Statement::IF(c, body) => match try_evaluate_expr(c, env) {
            Some(RuntimeEval::Bool(true)) => run_body(body, env, budget, Ghost(fuel)),
            Some(RuntimeEval::Bool(false)) => RunStatus::Done,
            _ => RunStatus::Failed,
        },
        Statement::WHILE(c, body) => run_loop(c, body, env, budget, Ghost(fuel)),
    }
}

/// Runs the statements `stmts` one after another, updating `env`.
fn run_body(stmts: &Vec<Statement>, env: &mut Env, budget: Option<u64>, Ghost(fuel): Ghost<nat>) -> (r: RunStatus)
    requires
        budget_is(budget, fuel),
        budget is None ==> run_block(block_view(stmts@), old(env)@, fuel) is Done,
    ensures
        reports(run_block(block_view(stmts@), old(env)@, fuel), r, final(env)@),
    decreases fuel, stmts,
{
    let ghost bv = block_view(stmts@);
    let ghost start = env@;
    proof {
        lemma_block_view(stmts@);
        assert(bv.subrange(0, bv.len() as int) == bv);
    }
    let n = stmts.len();
    let mut i: usize = 0;
    while i < n
        invariant
            n == stmts@.len() == bv.len(),
            bv == block_view(stmts@),
            start == old(env)@,
            budget_is(budget, fuel),
            forall|k: int| 0 <= k < n ==> #[trigger] bv[k] == stmt_view(stmts@[k]),
            i <= n,
            run_block(bv, start, fuel) == run_block(bv.subrange(i as int, n as int), env@, fuel),
            budget is None ==> run_block(bv, start, fuel) is Done,
        decreases n - i,
    {
        let ghost rest = bv.subrange(i as int, n as int);
        assert(rest[0] == bv[i as int]);
        assert(rest.subrange(1, rest.len() as int) == bv.subrange(i + 1, n as int));
        let r = run_statement(&stmts[i], env, budget, Ghost(fuel));
        match r {
            RunStatus::Done => {},
            _ => {
                return r;
            },
        }
        i = i + 1;
    }
    RunStatus::Done
}

/// Runs `while c do body end`, updating `env`.
fn run_loop(c: &Expr, body: &Vec<Statement>, env: &mut Env, budget: Option<u64>, Ghost(fuel): Ghost<nat>) -> (r: RunStatus)
    requires
        budget_is(budget, fuel),
        budget is None ==> run_while(c@, block_view(body@), old(env)@, fuel) is Done,
    ensures
        reports(run_while(c@, block_view(body@), old(env)@, fuel), r, final(env)@),
    decreases fuel, body,
{
    let ghost bv = block_view(body@);
    let mut f = budget;
    let ghost mut gf: nat = fuel;
    loop
        invariant
            bv == block_view(body@),
            gf <= fuel,
            budget_is(f, gf),
            budget is None <==> f is None,
            run_while(c@, bv, old(env)@, fuel) == run_while(c@, bv, env@, gf),
            f is None ==> run_while(c@, bv, env@, gf) is Done,
        decreases gf,
    {
        match f {
            Some(0) => {
                return RunStatus::OutOfFuel;
            },
            _ => {},
        }
        assert(gf > 0);
        match try_evaluate_expr(c, env) {
            None => {
                return RunStatus::Failed;
            },
            Some(RuntimeEval::Bool(true)) => {
                let next: Option<u64> = match f {
                    Some(k) => Some(k - 1),
                    None => None,
                };
                let r = run_body(body, env, next, Ghost((gf - 1) as nat));
                match r {
                    RunStatus::Done => {},
                    _ => {
                        return r;
                    },
                }
                f = next;
                proof {
                    gf = (gf - 1) as nat;
                }
            },
            Some(_) => {
                return RunStatus::Done;
            },
        }
    }
}

/// More fuel does not change a run that ended without running out of fuel.
pub proof fn lemma_run_stmt_more_fuel(s: StmtView, env: Map<Seq<char>, ValueView>, f: nat, g: nat)
    requires
        f <= g,
        !(run_stmt(s, env, f) is OutOfFuel),
    ensures
        run_stmt(s, env, g) == run_stmt(s, env, f),
    decreases f, s,
{
    match s {
        StmtView::IF(c, body) => {
            if eval(c, env) == Some(ValueView::Bool(true)) {
                lemma_run_block_more_fuel(body, env, f, g);
            }
        },
        StmtView::WHILE(c, body) => {
            lemma_run_while_more_fuel(c, body, env, f, g);
        },
        _ => {},
    }
}

/// More fuel does not change a loop that ended without running out of fuel.
pub proof fn lemma_run_while_more_fuel(
    c: ExprView,
    body: Seq<StmtView>,
    env: Map<Seq<char>, ValueView>,
    f: nat,
    g: nat,
)
    requires
        f <= g,
        !(run_while(c, body, env, f) is OutOfFuel),
    ensures
        run_while(c, body, env, g) == run_while(c, body, env, f),
    decreases f, body,
{
    if f > 0 && eval(c, env) == Some(ValueView::Bool(true)) {
        lemma_run_block_more_fuel(body, env, (f - 1) as nat, (g - 1) as nat);
        if let RunView::Done(next) = run_block(body, env, (f - 1) as nat) {
            lemma_run_while_more_fuel(c, body, next, (f - 1) as nat, (g - 1) as nat);
        }
    }
}

/// More fuel does not change a block that ended without running out of fuel.
pub proof fn lemma_run_block_more_fuel(b: Seq<StmtView>, env: Map<Seq<char>, ValueView>, f: nat, g: nat)
    requires
        f <= g,
        !(run_block(b, env, f) is OutOfFuel),
    ensures
        run_block(b, env, g) == run_block(b, env, f),
    decreases f, b,
{
    if b.len() > 0 {
        lemma_run_stmt_more_fuel(b[0], env, f, g);
        if let RunView::Done(next) = run_stmt(b[0], env, f) {
            lemma_run_block_more_fuel(b.subrange(1, b.len() as int), next, f, g);
        }
    }
}

/// A statement that runs to its end leaves the same variables whatever fuel it
/// was given.
pub proof fn lemma_run_deterministic(s: StmtView, env: Map<Seq<char>, ValueView>, f: nat, g: nat)
    requires
        run_stmt(s, env, f) is Done,
        run_stmt(s, env, g) is Done,
    ensures
        run_stmt(s, env, f) == run_stmt(s, env, g),
{
    if f <= g {
        lemma_run_stmt_more_fuel(s, env, f, g);
    } else {
        lemma_run_stmt_more_fuel(s, env, g, f);
    }
}

/// An assignment binds the name to the value of its expression and leaves the
/// other variables as they were.
pub proof fn lemma_assignment_binds(name: Seq<char>, e: ExprView, env: Map<Seq<char>, ValueView>, fuel: nat)
    requires
        eval(e, env) is Some,
    ensures
        run_stmt(StmtView::ASSIGN(name, e), env, fuel) == RunView::Done(env.insert(name, eval(e, env)->0)),
        run_stmt(StmtView::LET(name, e), env, fuel) == RunView::Done(env.insert(name, eval(e, env)->0)),
        env.insert(name, eval(e, env)->0)[name] == eval(e, env)->0,
        forall|k: Seq<char>| k != name ==> #[trigger] env.insert(name, eval(e, env)->0).contains_key(k)
            == env.contains_key(k) && (env.contains_key(k) ==> env.insert(name, eval(e, env)->0)[k] == env[k]),
{
}

/// A loop that ends leaves variables in which its condition does not evaluate
/// to `true`.
pub proof fn lemma_while_exit_condition(
    c: ExprView,
    body: Seq<StmtView>,
    env: Map<Seq<char>, ValueView>,
    fuel: nat,
)
    requires
        run_while(c, body, env, fuel) is Done,
    ensures
        eval(c, run_while(c, body, env, fuel)->Done_0) is Some,
        eval(c, run_while(c, body, env, fuel)->Done_0) != Some(ValueView::Bool(true)),
    decreases fuel,
{
    if eval(c, env) == Some(ValueView::Bool(true)) {
        if let RunView::Done(next) = run_block(body, env, (fuel - 1) as nat) {
            lemma_while_exit_condition(c, body, next, (fuel - 1) as nat);
        }
    }
}

impl Env {
    /// A copy of this environment.
    pub fn duplicate(&self) -> (r: Env)
        ensures
            r@ == self@,
    {
        proof {
            use_type_invariant(self);
        }
        let mut entries: Vec<(String, RuntimeEval)> = Vec::new();
        let mut i: usize = 0;
        while i < self.entries.len()
            invariant
                i <= self.entries@.len(),
                entries@.len() == i,
                forall|k: int| 0 <= k < i ==> (#[trigger] entries@[k]).0@ == self.entries@[k].0@
                    && entries@[k].1@ == self.entries@[k].1@,
            decreases self.entries@.len() - i,
        {
            let name = self.entries[i].0.clone();
            let value = self.entries[i].1.duplicate();
            entries.push((name, value));
            i = i + 1;
        }
        proof {
            lemma_entries_map_same(entries@, self.entries@);
        }
        Env { entries }
    }
}

proof fn lemma_entries_map_same(a: Seq<(String, RuntimeEval)>, b: Seq<(String, RuntimeEval)>)
    requires
        a.len() == b.len(),
        forall|k: int| 0 <= k < a.len() ==> (#[trigger] a[k]).0@ == b[k].0@ && a[k].1@ == b[k].1@,
        names_distinct(b),
    ensures
        entries_map(a) == entries_map(b),
        names_distinct(a),
    decreases a.len(),
{
    assert forall|i: int, j: int|
        0 <= i < a.len() && 0 <= j < a.len() && i != j implies (#[trigger] a[i]).0@
        != (#[trigger] a[j]).0@ by {
        assert(a[i].0@ == b[i].0@ && a[j].0@ == b[j].0@);
        assert(b[i].0@ != b[j].0@);
    }
    if a.len() > 0 {
        let ai = a.drop_last();
        let bi = b.drop_last();
        assert forall|i: int, j: int|
            0 <= i < bi.len() && 0 <= j < bi.len() && i != j implies (#[trigger] bi[i]).0@
            != (#[trigger] bi[j]).0@ by {
            assert(bi[i] == b[i] && bi[j] == b[j]);
        }
        assert forall|k: int| 0 <= k < ai.len() implies (#[trigger] ai[k]).0@ == bi[k].0@
            && ai[k].1@ == bi[k].1@ by {
            assert(ai[k] == a[k] && bi[k] == b[k]);
        }
        lemma_entries_map_same(ai, bi);
    }
}

/// Runs `stmt` with at most `fuel` iterations of each loop, updating `env` when
/// it runs to its end and leaving it unchanged otherwise.
pub fn try_exe_stmt(stmt: &Statement, env: &mut Env, fuel: u64) -> (r: RunStatus)
    ensures
        reports(run_stmt(stmt@, old(env)@, fuel as nat), r, final(env)@),
        r != RunStatus::Done ==> final(env)@ == old(env)@,
{
    let mut scratch = env.duplicate();
    let r = run_statement(stmt, &mut scratch, Some(fuel), Ghost(fuel as nat));
    match r {
        RunStatus::Done => {
            *env = scratch;
        },
        _ => {},
    }
    r
}

/// Whether running `stmt` in `env` comes to its end: it ends within some
/// number of loop iterations, with no expression that fails to evaluate and no
/// `if` on a value that is not a boolean.
pub open spec fn runs_to_end(stmt: StmtView, env: Map<Seq<char>, ValueView>) -> bool {
    exists|f: nat| #[trigger] run_stmt(stmt, env, f) is Done
}

/// Runs `stmt`, updating `env`; the statement must come to its end.
pub fn exe_stmt(stmt: &Statement, env: &mut Env)
    requires
        runs_to_end(stmt@, old(env)@),
    ensures
        forall|f: nat| #[trigger] run_stmt(stmt@, old(env)@, f) is Done ==> run_stmt(stmt@, old(env)@, f)
            == RunView::Done(final(env)@),
{
    let ghost f0 = choose|f: nat| #[trigger] run_stmt(stmt@, env@, f) is Done;
    let _ = run_statement(stmt, env, None, Ghost(f0));
    proof {
        assert forall|f: nat| #[trigger] run_stmt(stmt@, old(env)@, f) is Done implies run_stmt(
            stmt@,
            old(env)@,
            f,
        ) == RunView::Done(env@) by {
            lemma_run_deterministic(stmt@, old(env)@, f, f0);
        }
    }
}


/// The number literal `n` as an expression.
pub open spec fn number_literal(n: int) -> ExprView {
    ExprView::Literal(TokenView::Number(n))
}

/// `l op r` as an expression.
pub open spec fn compared(l: ExprView, op: TokenView, r: ExprView) -> ExprView {
    ExprView::Comparison(Box::new(l), op, Box::new(r))
}

/// Comparing two numbers gives the truth of the integer comparison: `a > b`,
/// `a >= b`, `a < b`, `a <= b`, `a == b` and `a != b`.
pub proof fn lemma_number_comparisons(a: int, b: int, env: Map<Seq<char>, ValueView>)
    ensures
        eval(compared(number_literal(a), TokenView::GT, number_literal(b)), env) == Some(
            ValueView::Bool(a > b),
        ),
        eval(compared(number_literal(a), TokenView::GE, number_literal(b)), env) == Some(
            ValueView::Bool(a >= b),
        ),
        eval(compared(number_literal(a), TokenView::LT, number_literal(b)), env) == Some(
            ValueView::Bool(a < b),
        ),
        eval(compared(number_literal(a), TokenView::LE, number_literal(b)), env) == Some(
            ValueView::Bool(a <= b),
        ),
        eval(compared(number_literal(a), TokenView::EQ, number_literal(b)), env) == Some(
            ValueView::Bool(a == b),
        ),
        eval(compared(number_literal(a), TokenView::UNEQ, number_literal(b)), env) == Some(
            ValueView::Bool(a != b),
        ),
{
    assert(eval(number_literal(a), env) == Some(ValueView::Number(a)));
    assert(eval(number_literal(b), env) == Some(ValueView::Number(b)));
    assert(value_lt(ValueView::Number(b), ValueView::Number(a)) == (b < a));
    assert(value_lt(ValueView::Number(a), ValueView::Number(b)) == (a < b));
    assert((ValueView::Number(a) == ValueView::Number(b)) == (a == b));
}

/// `l > r` is `r < l`, and `l >= r` is `r <= l`, for any operands; `==` and
/// `!=` do not depend on the order of their operands and are each other's
/// negation.
pub proof fn lemma_comparison_mirrors(l: ExprView, r: ExprView, env: Map<Seq<char>, ValueView>)
    ensures
        eval(compared(l, TokenView::GT, r), env) == eval(compared(r, TokenView::LT, l), env),
        eval(compared(l, TokenView::GE, r), env) == eval(compared(r, TokenView::LE, l), env),
        eval(compared(l, TokenView::EQ, r), env) == eval(compared(r, TokenView::EQ, l), env),
        eval(compared(l, TokenView::EQ, r), env) matches Some(ValueView::Bool(x)) ==> eval(
            compared(l, TokenView::UNEQ, r),
            env,
        ) == Some(ValueView::Bool(!x)),
{
}

/// An `if` runs its body exactly when its condition is `true`: when the
/// condition is `false` the variables stay as they were, and when it is no
/// boolean (or does not evaluate) running fails.
pub proof fn lemma_if_runs_only_when_true(
    c: ExprView,
    body: Seq<StmtView>,
    env: Map<Seq<char>, ValueView>,
    fuel: nat,
)
    ensures
        eval(c, env) == Some(ValueView::Bool(false)) ==> run_stmt(StmtView::IF(c, body), env, fuel)
            == RunView::Done(env),
        eval(c, env) == Some(ValueView::Bool(true)) ==> run_stmt(StmtView::IF(c, body), env, fuel)
            == run_block(body, env, fuel),
        !(eval(c, env) matches Some(ValueView::Bool(_))) ==> run_stmt(
            StmtView::IF(c, body),
            env,
            fuel,
        ) == RunView::Failed,
{
}

/// `a + b`, `a - b` and `a * b` on numbers give the integer sum, difference
/// and product where it fits in an `i64`, and fail where it does not; two
/// texts add up to the one followed by the other.
pub proof fn lemma_number_arithmetic(a: int, b: int, env: Map<Seq<char>, ValueView>)
    ensures
        eval(
            ExprView::Addition(Box::new(number_literal(a)), Box::new(number_literal(b))),
            env,
        ) == if fits_i64(a + b) {
            Some(ValueView::Number(a + b))
        } else {
            None
        },
        eval(
            ExprView::Subtraction(Box::new(number_literal(a)), Box::new(number_literal(b))),
            env,
        ) == if fits_i64(a - b) {
            Some(ValueView::Number(a - b))
        } else {
            None
        },
        eval(
            ExprView::Multiplication(Box::new(number_literal(a)), Box::new(number_literal(b))),
            env,
        ) == if fits_i64(a * b) {
            Some(ValueView::Number(a * b))
        } else {
            None
        },
{
    assert(eval(number_literal(a), env) == Some(ValueView::Number(a)));
    assert(eval(number_literal(b), env) == Some(ValueView::Number(b)));
}

/// Two texts add up to the first followed by the second.
pub proof fn lemma_text_join(x: Seq<char>, y: Seq<char>, env: Map<Seq<char>, ValueView>)
    ensures
        eval(
            ExprView::Addition(
                Box::new(ExprView::Literal(TokenView::Str(x))),
                Box::new(ExprView::Literal(TokenView::Str(y))),
            ),
            env,
        ) == Some(ValueView::Str(x + y)),
{
    assert(eval(ExprView::Literal(TokenView::Str(x)), env) == Some(ValueView::Str(x)));
    assert(eval(ExprView::Literal(TokenView::Str(y)), env) == Some(ValueView::Str(y)));
}

/// Dividing numbers fails by zero; otherwise, where it gives `q`, `q` is the
/// quotient rounded toward zero: `a == q * b + r` with `|r| < |b|` and `r`
/// zero or of the sign of `a`.
pub proof fn lemma_number_division(a: int, b: int, env: Map<Seq<char>, ValueView>)
    ensures
        b == 0 ==> eval(
            ExprView::Division(Box::new(number_literal(a)), Box::new(number_literal(b))),
            env,
        ) is None,
        eval(
            ExprView::Division(Box::new(number_literal(a)), Box::new(number_literal(b))),
            env,
        ) matches Some(v) ==> v matches ValueView::Number(q) && b != 0 && {
            let r = a - q * b;
            &&& abs(r) < abs(b)
            &&& (r == 0 || (r < 0) == (a < 0))
        },
{
    assert(eval(number_literal(a), env) == Some(ValueView::Number(a)));
    assert(eval(number_literal(b), env) == Some(ValueView::Number(b)));
    if b != 0 {
        let qa = abs(a) / abs(b);
        let ra = abs(a) % abs(b);
        assert(abs(a) == qa * abs(b) + ra && 0 <= ra < abs(b)) by (nonlinear_arith)
            requires
                abs(b) > 0,
                qa == abs(a) / abs(b),
                ra == abs(a) % abs(b),
        ;
        let q = trunc_div(a, b);
        if a >= 0 && b > 0 {
            assert(a - q * b == ra);
        } else if a < 0 && b < 0 {
            assert(q * b == -(qa * abs(b))) by (nonlinear_arith)
                requires
                    q == qa,
                    b == -abs(b),
            ;
            assert(a - q * b == -ra);
        } else if a >= 0 && b < 0 {
            assert(q * b == qa * abs(b)) by (nonlinear_arith)
                requires
                    q == -qa,
                    b == -abs(b),
            ;
            assert(a - q * b == ra);
        } else {
            assert(q * b == -(qa * abs(b))) by (nonlinear_arith)
                requires
                    q == -qa,
                    b == abs(b),
            ;
            assert(a - q * b == -ra);
        }
    }
}

/// A `while` whose condition is `false` runs its body not even once: the
/// variables stay as they were (with any fuel left for a first test).
pub proof fn lemma_while_false_skips(
    c: ExprView,
    body: Seq<StmtView>,
    env: Map<Seq<char>, ValueView>,
    fuel: nat,
)
    requires
        fuel > 0,
        eval(c, env) == Some(ValueView::Bool(false)),
    ensures
        run_stmt(StmtView::WHILE(c, body), env, fuel) == RunView::Done(env),
{
}

proof fn lemma_repeat_text_shape(s: Seq<char>, n: nat)
    ensures
        repeat_text(s, n).len() == n * s.len(),
        forall|i: int| 0 <= i < n * s.len() ==> #[trigger] repeat_text(s, n)[i] == s[i % (s.len() as int)],
    decreases n,
{
    if n > 0 {
        let m = (n - 1) as nat;
        lemma_repeat_text_shape(s, m);
        assert(n * s.len() == m * s.len() + s.len()) by (nonlinear_arith)
            requires
                n == m + 1,
        ;
        assert(repeat_text(s, n) == repeat_text(s, m) + s);
        assert forall|i: int| 0 <= i < n * s.len() implies #[trigger] repeat_text(s, n)[i] == s[i
            % (s.len() as int)] by {
            if i < m * s.len() {
                assert(repeat_text(s, n)[i] == repeat_text(s, m)[i]);
            } else {
                let k = i - m * s.len();
                assert(i % (s.len() as int) == k) by (nonlinear_arith)
                    requires
                        i == m * s.len() + k,
                        0 <= k < s.len(),
                ;
            }
        }
    } else {
        assert(n * s.len() == 0) by (nonlinear_arith)
            requires
                n == 0,
        ;
    }
}

/// A text times a count `n` (either way round) is the text written `n` times:
/// `n` times as long, its `i`-th character the text's `i mod len`-th; a
/// negative count fails.
pub proof fn lemma_text_repeat(s: Seq<char>, n: int, env: Map<Seq<char>, ValueView>)
    ensures
        n < 0 ==> eval(
            ExprView::Multiplication(
                Box::new(ExprView::Literal(TokenView::Str(s))),
                Box::new(number_literal(n)),
            ),
            env,
        ) is None,
        eval(
            ExprView::Multiplication(
                Box::new(ExprView::Literal(TokenView::Str(s))),
                Box::new(number_literal(n)),
            ),
            env,
        ) == eval(
            ExprView::Multiplication(
                Box::new(number_literal(n)),
                Box::new(ExprView::Literal(TokenView::Str(s))),
            ),
            env,
        ),
        eval(
            ExprView::Multiplication(
                Box::new(ExprView::Literal(TokenView::Str(s))),
                Box::new(number_literal(n)),
            ),
            env,
        ) matches Some(v) ==> v matches ValueView::Str(t) && n >= 0 && t.len() == n * s.len()
            && forall|i: int| 0 <= i < t.len() ==> #[trigger] t[i] == s[i % (s.len() as int)],
{
    assert(eval(number_literal(n), env) == Some(ValueView::Number(n)));
    assert(eval(ExprView::Literal(TokenView::Str(s)), env) == Some(ValueView::Str(s)));
    if n >= 0 {
        lemma_repeat_text_shape(s, n as nat);
    }
}

} // verus!
