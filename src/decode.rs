use vstd::prelude::*;
use vstd::string::StringSliceAdditionalSpecFns;

verus! {

// ---------------------------------------------------------------------------
// Byte classes and keywords
// ---------------------------------------------------------------------------

pub open spec fn is_ws(b: u8) -> bool {
    b == 32 || b == 9 || b == 10 || b == 13
}

pub open spec fn is_digit(b: u8) -> bool {
    48 <= b <= 57
}

/// Bytes that may appear in an IR identifier after its sigil.
pub open spec fn is_ident(b: u8) -> bool {
    is_digit(b) || (65 <= b <= 90) || (97 <= b <= 122) || b == 95 || b == 46 || b == 36 || b == 45
}

pub open spec fn kw_br() -> Seq<u8> { seq![98u8, 114] }
pub open spec fn kw_label() -> Seq<u8> { seq![108u8, 97, 98, 101, 108] }
pub open spec fn kw_i1() -> Seq<u8> { seq![105u8, 49] }
pub open spec fn kw_call() -> Seq<u8> { seq![99u8, 97, 108, 108] }
pub open spec fn kw_void() -> Seq<u8> { seq![118u8, 111, 105, 100] }
/// `%Result*`
pub open spec fn kw_result_ptr() -> Seq<u8> { seq![37u8, 82, 101, 115, 117, 108, 116, 42] }
/// `__quantum__qis__`
pub open spec fn qis_prefix() -> Seq<u8> {
    seq![95u8, 95, 113, 117, 97, 110, 116, 117, 109, 95, 95, 113, 105, 115, 95, 95]
}
/// `__quantum__rt__`
pub open spec fn rt_prefix() -> Seq<u8> {
    seq![95u8, 95, 113, 117, 97, 110, 116, 117, 109, 95, 95, 114, 116, 95, 95]
}
pub open spec fn kw_null() -> Seq<u8> { seq![110u8, 117, 108, 108] }
pub open spec fn kw_double() -> Seq<u8> { seq![100u8, 111, 117, 98, 108, 101] }
pub open spec fn kw_inttoptr() -> Seq<u8> { seq![105u8, 110, 116, 116, 111, 112, 116, 114] }
pub open spec fn kw_i64() -> Seq<u8> { seq![105u8, 54, 52] }

// ---------------------------------------------------------------------------
// Scanning primitives
// ---------------------------------------------------------------------------

/// The first position at or after `i` that is not whitespace.
pub open spec fn skip_ws(s: Seq<u8>, i: int) -> int
    decreases s.len() - i,
{
    if 0 <= i < s.len() && is_ws(s[i]) {
        skip_ws(s, i + 1)
    } else {
        i
    }
}

/// The first position at or after `i` that does not continue an identifier.
pub open spec fn ident_end(s: Seq<u8>, i: int) -> int
    decreases s.len() - i,
{
    if 0 <= i < s.len() && is_ident(s[i]) {
        ident_end(s, i + 1)
    } else {
        i
    }
}

/// The first position at or after `i` that is not a decimal digit.
pub open spec fn digits_end(s: Seq<u8>, i: int) -> int
    decreases s.len() - i,
{
    if 0 <= i < s.len() && is_digit(s[i]) {
        digits_end(s, i + 1)
    } else {
        i
    }
}

/// The first position of the run of decimal digits that ends at `j`.
pub open spec fn digits_start(s: Seq<u8>, j: int) -> int
    decreases j,
{
    if 0 < j <= s.len() && is_digit(s[j - 1]) {
        digits_start(s, j - 1)
    } else {
        j
    }
}

/// The end of `s` with trailing whitespace before `j` cut off.
pub open spec fn trim_end(s: Seq<u8>, j: int) -> int
    decreases j,
{
    if 0 < j <= s.len() && is_ws(s[j - 1]) {
        trim_end(s, j - 1)
    } else {
        j
    }
}

/// `s` without leading and trailing whitespace.
pub open spec fn trim(s: Seq<u8>) -> Seq<u8> {
    let b = skip_ws(s, 0);
    let e = trim_end(s, s.len() as int);
    if b < e {
        s.subrange(b, e)
    } else {
        Seq::empty()
    }
}

/// `lit` occurs in `s` at position `i`.
pub open spec fn lit_at(s: Seq<u8>, i: int, lit: Seq<u8>) -> bool {
    0 <= i && i + lit.len() <= s.len() && s.subrange(i, i + lit.len()) == lit
}

/// The first position at or after `i` where `lit` occurs.
pub open spec fn find_from(s: Seq<u8>, i: int, lit: Seq<u8>) -> Option<int>
    decreases s.len() + 1 - i,
{
    if i < 0 || i + lit.len() > s.len() {
        None
    } else if lit_at(s, i, lit) {
        Some(i)
    } else {
        find_from(s, i + 1, lit)
    }
}

/// Skip whitespace, then `lit`: the position after it.
pub open spec fn expect(s: Seq<u8>, i: int, lit: Seq<u8>) -> Option<int> {
    let j = skip_ws(s, i);
    if lit_at(s, j, lit) {
        Some(j + lit.len())
    } else {
        None
    }
}

/// Skip whitespace, then a `%`-sigil name: the name and the position after it.
pub open spec fn expect_name(s: Seq<u8>, i: int) -> Option<(Seq<u8>, int)> {
    let j = skip_ws(s, i);
    if 0 <= j < s.len() && s[j] == 37u8 {
        let e = ident_end(s, j + 1);
        Some((s.subrange(j + 1, e), e))
    } else {
        None
    }
}

/// The position of the `)` that closes a group opened before `i`, with
/// `depth` further groups open.
pub open spec fn close_paren(s: Seq<u8>, i: int, depth: nat) -> Option<int>
    decreases s.len() - i,
{
    if i < 0 || i >= s.len() {
        None
    } else if s[i] == 41u8 {
        if depth == 0 {
            Some(i)
        } else {
            close_paren(s, i + 1, (depth - 1) as nat)
        }
    } else if s[i] == 40u8 {
        close_paren(s, i + 1, depth + 1)
    } else {
        close_paren(s, i + 1, depth)
    }
}


// ---------------------------------------------------------------------------
// Executable scanners
// ---------------------------------------------------------------------------

fn ws_byte(b: u8) -> (r: bool)
    ensures
        r == is_ws(b),
{
    b == 32 || b == 9 || b == 10 || b == 13
}

fn digit_byte(b: u8) -> (r: bool)
    ensures
        r == is_digit(b),
{
    48 <= b && b <= 57
}

fn ident_byte(b: u8) -> (r: bool)
    ensures
        r == is_ident(b),
{
    (48 <= b && b <= 57) || (65 <= b && b <= 90) || (97 <= b && b <= 122) || b == 95 || b == 46
        || b == 36 || b == 45
}

pub fn skip_ws_at(s: &[u8], i: usize) -> (r: usize)
    requires
        i <= s@.len(),
    ensures
        r as int == skip_ws(s@, i as int),
        i <= r <= s@.len(),
{
    let mut j = i;
    while j < s.len() && ws_byte(s[j])
        invariant
            i <= j <= s@.len(),
            skip_ws(s@, i as int) == skip_ws(s@, j as int),
        decreases s@.len() - j,
    {
        j = j + 1;
    }
    j
}

fn ident_end_at(s: &[u8], i: usize) -> (r: usize)
    requires
        i <= s@.len(),
    ensures
        r as int == ident_end(s@, i as int),
        i <= r <= s@.len(),
{
    let mut j = i;
    while j < s.len() && ident_byte(s[j])
        invariant
            i <= j <= s@.len(),
            ident_end(s@, i as int) == ident_end(s@, j as int),
        decreases s@.len() - j,
    {
        j = j + 1;
    }
    j
}

fn digits_end_at(s: &[u8], i: usize) -> (r: usize)
    requires
        i <= s@.len(),
    ensures
        r as int == digits_end(s@, i as int),
        i <= r <= s@.len(),
{
    let mut j = i;
    while j < s.len() && digit_byte(s[j])
        invariant
            i <= j <= s@.len(),
            digits_end(s@, i as int) == digits_end(s@, j as int),
        decreases s@.len() - j,
    {
        j = j + 1;
    }
    j
}

fn digits_start_at(s: &[u8], j: usize) -> (r: usize)
    requires
        j <= s@.len(),
    ensures
        r as int == digits_start(s@, j as int),
        r <= j,
{
    let mut k = j;
    while k > 0 && digit_byte(s[k - 1])
        invariant
            k <= j <= s@.len(),
            digits_start(s@, j as int) == digits_start(s@, k as int),
        decreases k,
    {
        k = k - 1;
    }
    k
}

fn trim_end_at(s: &[u8], j: usize) -> (r: usize)
    requires
        j <= s@.len(),
    ensures
        r as int == trim_end(s@, j as int),
        r <= j,
{
    let mut k = j;
    while k > 0 && ws_byte(s[k - 1])
        invariant
            k <= j <= s@.len(),
            trim_end(s@, j as int) == trim_end(s@, k as int),
        decreases k,
    {
        k = k - 1;
    }
    k
}

/// A copy of `s[i..j]`.
pub fn copy_range(s: &[u8], i: usize, j: usize) -> (r: Vec<u8>)
    requires
        i <= j <= s@.len(),
    ensures
        r@ == s@.subrange(i as int, j as int),
{
    let mut r: Vec<u8> = Vec::new();
    let mut k = i;
    while k < j
        invariant
            i <= k <= j <= s@.len(),
            r@ == s@.subrange(i as int, k as int),
        decreases j - k,
    {
        r.push(s[k]);
        k = k + 1;
        assert(r@ =~= s@.subrange(i as int, k as int));
    }
    r
}

/// `s` without leading and trailing whitespace.
pub fn trim_bytes(s: &[u8]) -> (r: Vec<u8>)
    ensures
        r@ == trim(s@),
{
    let b = skip_ws_at(s, 0);
    let e = trim_end_at(s, s.len());
    if b < e {
        copy_range(s, b, e)
    } else {
        Vec::new()
    }
}

/// Whether `lit` occurs in `s` at position `i`.
pub fn lit_at_bytes(s: &[u8], i: usize, lit: &[u8]) -> (r: bool)
    requires
        i <= s@.len(),
    ensures
        r == lit_at(s@, i as int, lit@),
{
    if lit.len() > s.len() - i {
        return false;
    }
    let mut k: usize = 0;
    while k < lit.len()
        invariant
            i + lit@.len() <= s@.len(),
            s@.len() == s.len(),
            k <= lit@.len(),
            forall|m: int| 0 <= m < k ==> s@[i + m] == lit@[m],
        decreases lit@.len() - k,
    {
        if s[i + k] != lit[k] {
            assert(s@.subrange(i as int, i + lit@.len())[k as int] != lit@[k as int]);
            return false;
        }
        k = k + 1;
    }
    assert(s@.subrange(i as int, i + lit@.len()) =~= lit@);
    true
}

fn find_from_exec(s: &[u8], i: usize, lit: &[u8]) -> (r: Option<usize>)
    requires
        i <= s@.len(),
    ensures
        r matches Some(p) ==> find_from(s@, i as int, lit@) == Some(p as int),
        r is None ==> find_from(s@, i as int, lit@) is None,
{
    if lit.len() == 0 {
        assert(s@.subrange(i as int, i as int) =~= lit@);
        return Some(i);
    }
    let mut j = i;
    while lit.len() <= s.len() - j
        invariant
            i <= j <= s@.len(),
            s@.len() == s.len(),
            lit@.len() > 0,
            find_from(s@, i as int, lit@) == find_from(s@, j as int, lit@),
        decreases s@.len() + 1 - j,
    {
        if lit_at_bytes(s, j, lit) {
            return Some(j);
        }
        j = j + 1;
    }
    None
}

fn expect_exec(s: &[u8], i: usize, lit: &[u8]) -> (r: Option<usize>)
    requires
        i <= s@.len(),
    ensures
        r matches Some(p) ==> expect(s@, i as int, lit@) == Some(p as int) && p <= s@.len(),
        r is None ==> expect(s@, i as int, lit@) is None,
{
    let j = skip_ws_at(s, i);
    assert(s@.len() == s.len());
    if lit_at_bytes(s, j, lit) {
        Some(j + lit.len())
    } else {
        None
    }
}

fn expect_name_exec(s: &[u8], i: usize) -> (r: Option<(Vec<u8>, usize)>)
    requires
        i <= s@.len(),
    ensures
        r matches Some(p) ==> expect_name(s@, i as int) == Some((p.0@, p.1 as int)) && p.1 <= s@.len(),
        r is None ==> expect_name(s@, i as int) is None,
{
    let j = skip_ws_at(s, i);
    if j < s.len() && s[j] == 37u8 {
        let e = ident_end_at(s, j + 1);
        Some((copy_range(s, j + 1, e), e))
    } else {
        None
    }
}

fn close_paren_exec(s: &[u8], i: usize) -> (r: Option<usize>)
    requires
        i <= s@.len(),
    ensures
        r matches Some(p) ==> close_paren(s@, i as int, 0) == Some(p as int) && i <= p < s@.len(),
        r is None ==> close_paren(s@, i as int, 0) is None,
{
    let mut j = i;
    let mut depth: usize = 0;
    proof {
        lemma_close_paren_range(s@, i as int, 0);
    }
    while j < s.len()
        invariant
            i <= j <= s@.len(),
            depth <= j - i,
            forall|p: int| close_paren(s@, i as int, 0) == Some(p) ==> i <= p < s@.len(),
            close_paren(s@, i as int, 0) == close_paren(s@, j as int, depth as nat),
        decreases s@.len() - j,
    {
        if s[j] == 41u8 {
            if depth == 0 {
                return Some(j);
            }
            depth = depth - 1;
        } else if s[j] == 40u8 {
            depth = depth + 1;
        }
        j = j + 1;
    }
    None
}

proof fn lemma_close_paren_range(s: Seq<u8>, i: int, depth: nat)
    ensures
        forall|p: int| close_paren(s, i, depth) == Some(p) ==> i <= p < s.len(),
    decreases s.len() - i,
{
    if 0 <= i < s.len() {
        lemma_close_paren_range(s, i + 1, (depth - 1) as nat);
        lemma_close_paren_range(s, i + 1, depth + 1);
        lemma_close_paren_range(s, i + 1, depth);
    }
}


// ---------------------------------------------------------------------------
// Line grammar
// ---------------------------------------------------------------------------

/// What one line of program text means, over byte sequences.
pub enum LineSpec {
    Inert,
    Label(Seq<u8>),
    Branch(Seq<u8>),
    CondBranch(Seq<u8>, Seq<u8>, Seq<u8>),
    Call(Option<Seq<u8>>, Seq<u8>, Seq<u8>),
}

/// One decoded line of program text.
#[derive(Debug, Clone, PartialEq, Eq)]
pub enum Line {
    /// Blank, comment, or anything unrecognised.
    Inert,
    /// `name:` — the start of a labelled block.
    Label(Vec<u8>),
    /// `br label %name`
    Branch(Vec<u8>),
    /// `br i1 %cond, label %then, label %else`
    CondBranch(Vec<u8>, Vec<u8>, Vec<u8>),
    /// `[%var =] call <ret> @op(args)`: the bound variable, the operator name
    /// and the raw argument text.
    Call(Option<Vec<u8>>, Vec<u8>, Vec<u8>),
}

pub open spec fn opt_bytes(o: Option<Vec<u8>>) -> Option<Seq<u8>> {
    match o {
        Some(v) => Some(v@),
        None => None,
    }
}

impl View for Line {
    type V = LineSpec;

    open spec fn view(&self) -> LineSpec {
        match self {
            Line::Inert => LineSpec::Inert,
            Line::Label(n) => LineSpec::Label(n@),
            Line::Branch(n) => LineSpec::Branch(n@),
            Line::CondBranch(c, a, b) => LineSpec::CondBranch(c@, a@, b@),
            Line::Call(v, o, a) => LineSpec::Call(opt_bytes(*v), o@, a@),
        }
    }
}

pub open spec fn comma() -> Seq<u8> { seq![44u8] }
pub open spec fn equals() -> Seq<u8> { seq![61u8] }
pub open spec fn at_sign() -> Seq<u8> { seq![64u8] }

/// `label %name`: the name and the position after it.
pub open spec fn label_ref(t: Seq<u8>, i: int) -> Option<(Seq<u8>, int)> {
    match expect(t, i, kw_label()) {
        Some(j) => expect_name(t, j),
        None => None,
    }
}

/// `, label %name`
pub open spec fn next_label_ref(t: Seq<u8>, i: int) -> Option<(Seq<u8>, int)> {
    match expect(t, i, comma()) {
        Some(j) => label_ref(t, j),
        None => None,
    }
}

/// The operands of a `br` whose operands start at `i`.
pub open spec fn branch_spec(t: Seq<u8>, i: int) -> LineSpec {
    match label_ref(t, i) {
        Some((n, _)) => LineSpec::Branch(n),
        None => match expect(t, i, kw_i1()) {
            None => LineSpec::Inert,
            Some(j) => match expect_name(t, j) {
                None => LineSpec::Inert,
                Some((c, k)) => match next_label_ref(t, k) {
                    None => LineSpec::Inert,
                    Some((a, k2)) => match next_label_ref(t, k2) {
                        None => LineSpec::Inert,
                        Some((b, _)) => LineSpec::CondBranch(c, a, b),
                    },
                },
            },
        },
    }
}

/// The optional `%var =` before a call: the variable and where the rest starts.
pub open spec fn binding(t: Seq<u8>) -> Option<(Option<Seq<u8>>, int)> {
    if t.len() > 0 && t[0] == 37u8 {
        match expect_name(t, 0) {
            Some((n, k)) => match expect(t, k, equals()) {
                Some(k2) => Some((Some(n), k2)),
                None => None,
            },
            None => None,
        }
    } else {
        Some((None, 0))
    }
}

/// One of the return types a call may name: `void`, `i1`, `%Result*`.
pub open spec fn ret_type(t: Seq<u8>, i: int) -> Option<int> {
    match expect(t, i, kw_void()) {
        Some(k) => Some(k),
        None => match expect(t, i, kw_i1()) {
            Some(k) => Some(k),
            None => expect(t, i, kw_result_ptr()),
        },
    }
}

/// The first position at or after `i` holding `(` or whitespace.
pub open spec fn op_end(t: Seq<u8>, i: int) -> int
    decreases t.len() - i,
{
    if 0 <= i < t.len() && t[i] != 40u8 && !is_ws(t[i]) {
        op_end(t, i + 1)
    } else {
        i
    }
}

/// An operator of the quantum instruction set or of the quantum runtime.
pub open spec fn is_quantum_op(op: Seq<u8>) -> bool {
    lit_at(op, 0, qis_prefix()) || lit_at(op, 0, rt_prefix())
}

/// A call line whose operator name starts at `o`.
pub open spec fn call_tail(t: Seq<u8>, bind: Option<Seq<u8>>, o: int) -> LineSpec {
    let e = op_end(t, o);
    let op = t.subrange(o, e);
    if is_quantum_op(op) && e < t.len() && t[e] == 40u8 {
        match close_paren(t, e + 1, 0) {
            Some(c) => LineSpec::Call(bind, op, t.subrange(e + 1, c)),
            None => LineSpec::Inert,
        }
    } else {
        LineSpec::Inert
    }
}

pub open spec fn call_spec(t: Seq<u8>) -> LineSpec {
    match binding(t) {
        None => LineSpec::Inert,
        Some((bind, i)) => match expect(t, i, kw_call()) {
            None => LineSpec::Inert,
            Some(j) => match ret_type(t, j) {
                None => LineSpec::Inert,
                Some(k) => match expect(t, k, at_sign()) {
                    None => LineSpec::Inert,
                    Some(o) => call_tail(t, bind, o),
                },
            },
        },
    }
}

/// The meaning of a line already stripped of surrounding whitespace.
pub open spec fn decode_trimmed(t: Seq<u8>) -> LineSpec {
    if t.len() == 0 || t[0] == 59u8 {
        LineSpec::Inert
    } else if t[t.len() - 1] == 58u8 {
        LineSpec::Label(t.subrange(0, t.len() - 1))
    } else if t.len() > 2 && lit_at(t, 0, kw_br()) && is_ws(t[2]) {
        branch_spec(t, 3)
    } else {
        call_spec(t)
    }
}

/// The meaning of one raw line of program text.
pub open spec fn decode_spec(s: Seq<u8>) -> LineSpec {
    decode_trimmed(trim(s))
}

fn label_ref_exec(t: &[u8], i: usize) -> (r: Option<(Vec<u8>, usize)>)
    requires
        i <= t@.len(),
    ensures
        r matches Some(p) ==> label_ref(t@, i as int) == Some((p.0@, p.1 as int)) && p.1 <= t@.len(),
        r is None ==> label_ref(t@, i as int) is None,
{
    let kw: Vec<u8> = vec![108u8, 97, 98, 101, 108];
    assert(kw@ == kw_label());
    match expect_exec(t, i, kw.as_slice()) {
        Some(j) => expect_name_exec(t, j),
        None => None,
    }
}

fn next_label_ref_exec(t: &[u8], i: usize) -> (r: Option<(Vec<u8>, usize)>)
    requires
        i <= t@.len(),
    ensures
        r matches Some(p) ==> next_label_ref(t@, i as int) == Some((p.0@, p.1 as int)) && p.1 <= t@.len(),
        r is None ==> next_label_ref(t@, i as int) is None,
{
    let kw: Vec<u8> = vec![44u8];
    assert(kw@ == comma());
    match expect_exec(t, i, kw.as_slice()) {
        Some(j) => label_ref_exec(t, j),
        None => None,
    }
}

fn branch_exec(t: &[u8], i: usize) -> (r: Line)
    requires
        i <= t@.len(),
    ensures
        r@ == branch_spec(t@, i as int),
{
    match label_ref_exec(t, i) {
        Some((n, _)) => Line::Branch(n),
        None => {
            let kw: Vec<u8> = vec![105u8, 49];
            assert(kw@ == kw_i1());
            match expect_exec(t, i, kw.as_slice()) {
                None => Line::Inert,
                Some(j) => match expect_name_exec(t, j) {
                    None => Line::Inert,
                    Some((c, k)) => match next_label_ref_exec(t, k) {
                        None => Line::Inert,
                        Some((a, k2)) => match next_label_ref_exec(t, k2) {
                            None => Line::Inert,
                            Some((b, _)) => Line::CondBranch(c, a, b),
                        },
                    },
                },
            }
        },
    }
}

fn binding_exec(t: &[u8]) -> (r: Option<(Option<Vec<u8>>, usize)>)
    ensures
        r matches Some(p) ==> binding(t@) == Some((opt_bytes(p.0), p.1 as int)) && p.1 <= t@.len(),
        r is None ==> binding(t@) is None,
{
    if t.len() > 0 && t[0] == 37u8 {
        match expect_name_exec(t, 0) {
            Some((n, k)) => {
                let kw: Vec<u8> = vec![61u8];
                assert(kw@ == equals());
                match expect_exec(t, k, kw.as_slice()) {
                    Some(k2) => Some((Some(n), k2)),
                    None => None,
                }
            },
            None => None,
        }
    } else {
        Some((None, 0))
    }
}

fn ret_type_exec(t: &[u8], i: usize) -> (r: Option<usize>)
    requires
        i <= t@.len(),
    ensures
        r matches Some(p) ==> ret_type(t@, i as int) == Some(p as int) && p <= t@.len(),
        r is None ==> ret_type(t@, i as int) is None,
{
    let void: Vec<u8> = vec![118u8, 111, 105, 100];
    assert(void@ == kw_void());
    let i1: Vec<u8> = vec![105u8, 49];
    assert(i1@ == kw_i1());
    let res: Vec<u8> = vec![37u8, 82, 101, 115, 117, 108, 116, 42];
    assert(res@ == kw_result_ptr());
    match expect_exec(t, i, void.as_slice()) {
        Some(k) => Some(k),
        None => match expect_exec(t, i, i1.as_slice()) {
            Some(k) => Some(k),
            None => expect_exec(t, i, res.as_slice()),
        },
    }
}

fn op_end_exec(t: &[u8], i: usize) -> (r: usize)
    requires
        i <= t@.len(),
    ensures
        r as int == op_end(t@, i as int),
        i <= r <= t@.len(),
{
    let mut j = i;
    while j < t.len() && t[j] != 40u8 && !ws_byte(t[j])
        invariant
            i <= j <= t@.len(),
            op_end(t@, i as int) == op_end(t@, j as int),
        decreases t@.len() - j,
    {
        j = j + 1;
    }
    j
}

fn is_quantum_op_exec(op: &[u8]) -> (r: bool)
    ensures
        r == is_quantum_op(op@),
{
    let qis: Vec<u8> = vec![95u8, 95, 113, 117, 97, 110, 116, 117, 109, 95, 95, 113, 105, 115, 95, 95];
    assert(qis@ == qis_prefix());
    let rt: Vec<u8> = vec![95u8, 95, 113, 117, 97, 110, 116, 117, 109, 95, 95, 114, 116, 95, 95];
    assert(rt@ == rt_prefix());
    lit_at_bytes(op, 0, qis.as_slice()) || lit_at_bytes(op, 0, rt.as_slice())
}

fn call_tail_exec(t: &[u8], bind: Option<Vec<u8>>, o: usize) -> (r: Line)
    requires
        o <= t@.len(),
    ensures
        r@ == call_tail(t@, opt_bytes(bind), o as int),
{
    let e = op_end_exec(t, o);
    let op = copy_range(t, o, e);
    if is_quantum_op_exec(op.as_slice()) && e < t.len() && t[e] == 40u8 {
        match close_paren_exec(t, e + 1) {
            Some(c) => Line::Call(bind, op, copy_range(t, e + 1, c)),
            None => Line::Inert,
        }
    } else {
        Line::Inert
    }
}

fn call_exec(t: &[u8]) -> (r: Line)
    ensures
        r@ == call_spec(t@),
{
    match binding_exec(t) {
        None => Line::Inert,
        Some((bind, i)) => {
            let call: Vec<u8> = vec![99u8, 97, 108, 108];
            assert(call@ == kw_call());
            match expect_exec(t, i, call.as_slice()) {
                None => Line::Inert,
                Some(j) => match ret_type_exec(t, j) {
                    None => Line::Inert,
                    Some(k) => {
                        let at: Vec<u8> = vec![64u8];
                        assert(at@ == at_sign());
                        match expect_exec(t, k, at.as_slice()) {
                            None => Line::Inert,
                            Some(o) => call_tail_exec(t, bind, o),
                        }
                    },
                },
            }
        },
    }
}

/// Decodes one line already stripped of surrounding whitespace.
pub fn decode_trimmed_bytes(t: &[u8]) -> (r: Line)
    ensures
        r@ == decode_trimmed(t@),
{
    if t.len() == 0 || t[0] == 59u8 {
        Line::Inert
    } else if t[t.len() - 1] == 58u8 {
        Line::Label(copy_range(t, 0, t.len() - 1))
    } else {
        let br: Vec<u8> = vec![98u8, 114];
        assert(br@ == kw_br());
        if t.len() > 2 && lit_at_bytes(t, 0, br.as_slice()) && ws_byte(t[2]) {
            branch_exec(t, 3)
        } else {
            call_exec(t)
        }
    }
}

/// Decodes one raw line of program text.
pub fn decode_line(line: &str) -> (r: Line)
    ensures
        r@ == decode_spec(line.spec_bytes()),
{
    let raw = line.as_bytes();
    let t = trim_bytes(raw);
    decode_trimmed_bytes(t.as_slice())
}

// ---------------------------------------------------------------------------
// Arguments
// ---------------------------------------------------------------------------

/// The numeric payload of one argument.
pub enum PayloadSpec {
    Bits(u64),
    Float(Seq<u8>),
}

/// The numeric payload of one argument: an unsigned integer, or the text of a
/// floating-point literal whose bit pattern is the payload.
#[derive(Debug, Clone, PartialEq, Eq)]
pub enum Payload {
    Bits(u64),
    Float(Vec<u8>),
}

impl Payload {
    /// An identical payload.
    pub fn copy(&self) -> (r: Payload)
        ensures
            r@ == self@,
    {
        match self {
            Payload::Bits(b) => Payload::Bits(*b),
            Payload::Float(t) => {
                let c = copy_range(t.as_slice(), 0, t.len());
                assert(c@ =~= t@);
                Payload::Float(c)
            },
        }
    }
}

impl View for Payload {
    type V = PayloadSpec;

    open spec fn view(&self) -> PayloadSpec {
        match self {
            Payload::Bits(b) => PayloadSpec::Bits(*b),
            Payload::Float(t) => PayloadSpec::Float(t@),
        }
    }
}

/// The value of a run of decimal digits.
pub open spec fn decimal(d: Seq<u8>) -> nat
    decreases d.len(),
{
    if d.len() == 0 {
        0
    } else {
        decimal(d.drop_last()) * 10 + (d.last() - 48) as nat
    }
}

/// The value of the digits `s[b..e]`, or 0 when it does not fit in 64 bits.
pub open spec fn number(s: Seq<u8>, b: int, e: int) -> u64 {
    let v = decimal(s.subrange(b, e));
    if v <= u64::MAX {
        v as u64
    } else {
        0
    }
}

/// The payload of one trimmed argument fragment. The rules are tried in
/// order: a null pointer is 0; a `double` gives its literal; an `inttoptr`
/// cast gives the integer after its `i64`; anything else gives its trailing
/// integer literal.
pub open spec fn extract_spec(f: Seq<u8>) -> PayloadSpec {
    if find_from(f, 0, kw_null()) is Some {
        PayloadSpec::Bits(0)
    } else if find_from(f, 0, kw_double()) is Some {
        let p = find_from(f, 0, kw_double())->0;
        PayloadSpec::Float(trim(f.subrange(p + 6, f.len() as int)))
    } else if find_from(f, 0, kw_inttoptr()) is Some {
        match find_from(f, 0, kw_i64()) {
            Some(p) => {
                let d = skip_ws(f, p + 3);
                PayloadSpec::Bits(number(f, d, digits_end(f, d)))
            },
            None => PayloadSpec::Bits(0),
        }
    } else {
        PayloadSpec::Bits(number(f, digits_start(f, f.len() as int), f.len() as int))
    }
}

/// The payloads of one fragment: none when it is blank.
pub open spec fn emit(frag: Seq<u8>) -> Seq<PayloadSpec> {
    if trim(frag).len() == 0 {
        Seq::empty()
    } else {
        seq![extract_spec(trim(frag))]
    }
}

/// The payloads of `a` from position `i` on, inside `depth` open groups,
/// with the current fragment starting at `start`.
pub open spec fn args_from(a: Seq<u8>, i: int, depth: nat, start: int) -> Seq<PayloadSpec>
    decreases a.len() - i,
{
    if i < 0 || i >= a.len() {
        emit(a.subrange(start, a.len() as int))
    } else if a[i] == 44u8 && depth == 0 {
        emit(a.subrange(start, i)) + args_from(a, i + 1, 0, i + 1)
    } else if a[i] == 40u8 {
        args_from(a, i + 1, depth + 1, start)
    } else if a[i] == 41u8 {
        args_from(a, i + 1, if depth > 0 { (depth - 1) as nat } else { 0 }, start)
    } else {
        args_from(a, i + 1, depth, start)
    }
}

/// The payloads of an argument list: split at commas outside parentheses,
/// blank fragments dropped.
pub open spec fn args_spec(a: Seq<u8>) -> Seq<PayloadSpec> {
    args_from(a, 0, 0, 0)
}

pub open spec fn payloads_view(v: Seq<Payload>) -> Seq<PayloadSpec> {
    v.map_values(|p: Payload| p@)
}

proof fn lemma_digits_end(s: Seq<u8>, i: int)
    requires
        0 <= i <= s.len(),
    ensures
        i <= digits_end(s, i) <= s.len(),
        forall|k: int| i <= k < digits_end(s, i) ==> is_digit(#[trigger] s[k]),
    decreases s.len() - i,
{
    if i < s.len() && is_digit(s[i]) {
        lemma_digits_end(s, i + 1);
    }
}

proof fn lemma_digits_start(s: Seq<u8>, j: int)
    requires
        0 <= j <= s.len(),
    ensures
        0 <= digits_start(s, j) <= j,
        forall|k: int| digits_start(s, j) <= k < j ==> is_digit(#[trigger] s[k]),
    decreases j,
{
    if 0 < j && is_digit(s[j - 1]) {
        lemma_digits_start(s, j - 1);
    }
}

proof fn lemma_skip_ws_range(s: Seq<u8>, i: int)
    requires
        0 <= i <= s.len(),
    ensures
        i <= skip_ws(s, i) <= s.len(),
    decreases s.len() - i,
{
    if i < s.len() && is_ws(s[i]) {
        lemma_skip_ws_range(s, i + 1);
    }
}

/// The value of the digits `s[b..e]`, or 0 when it does not fit in 64 bits.
fn number_exec(s: &[u8], b: usize, e: usize) -> (r: u64)
    requires
        b <= e <= s@.len(),
        forall|k: int| b <= k < e ==> is_digit(#[trigger] s@[k]),
    ensures
        r == number(s@, b as int, e as int),
{
    let mut acc: u64 = 0;
    let mut over = false;
    let mut k = b;
    assert(s@.subrange(b as int, b as int) =~= Seq::<u8>::empty());
    while k < e
        invariant
            b <= k <= e <= s@.len(),
            forall|m: int| b <= m < e ==> is_digit(#[trigger] s@[m]),
            !over ==> acc as nat == decimal(s@.subrange(b as int, k as int)),
            over ==> decimal(s@.subrange(b as int, k as int)) > u64::MAX,
        decreases e - k,
    {
        let ghost prev = decimal(s@.subrange(b as int, k as int));
        assert(s@.subrange(b as int, k + 1).drop_last() =~= s@.subrange(b as int, k as int));
        let dig = (s[k] - 48) as u64;
        assert(is_digit(s@[k as int]));
        if !over {
            if acc > 1844674407370955161 || (acc == 1844674407370955161 && dig > 5) {
                over = true;
                assert(prev * 10 + dig > u64::MAX) by (nonlinear_arith)
                    requires
                        prev == acc,
                        acc > 1844674407370955161 || (acc == 1844674407370955161 && dig > 5),
                ;
            } else {
                assert(acc * 10 + dig <= u64::MAX) by (nonlinear_arith)
                    requires
                        acc <= 1844674407370955161,
                        acc == 1844674407370955161 ==> dig <= 5,
                        dig <= 9,
                ;
                acc = acc * 10 + dig;
            }
        } else {
            assert(prev * 10 + dig > u64::MAX) by (nonlinear_arith)
                requires
                    prev > u64::MAX,
                    dig >= 0,
            ;
        }
        k = k + 1;
    }
    if over {
        0
    } else {
        acc
    }
}

/// The payload of one trimmed argument fragment.
pub fn extract_id_bytes(f: &[u8]) -> (r: Payload)
    ensures
        r@ == extract_spec(f@),
{
    let null: Vec<u8> = vec![110u8, 117, 108, 108];
    assert(null@ == kw_null());
    let double: Vec<u8> = vec![100u8, 111, 117, 98, 108, 101];
    assert(double@ == kw_double());
    let cast: Vec<u8> = vec![105u8, 110, 116, 116, 111, 112, 116, 114];
    assert(cast@ == kw_inttoptr());
    let i64_kw: Vec<u8> = vec![105u8, 54, 52];
    assert(i64_kw@ == kw_i64());
    assert(f@.len() == f.len());
    if find_from_exec(f, 0, null.as_slice()).is_some() {
        return Payload::Bits(0);
    }
    match find_from_exec(f, 0, double.as_slice()) {
        Some(p) => {
            proof {
                lemma_find_from_range(f@, 0, kw_double());
            }
            let rest = copy_range(f, p + 6, f.len());
            return Payload::Float(trim_bytes(rest.as_slice()));
        },
        None => {},
    }
    if find_from_exec(f, 0, cast.as_slice()).is_some() {
        match find_from_exec(f, 0, i64_kw.as_slice()) {
            Some(p) => {
                proof {
                    lemma_find_from_range(f@, 0, kw_i64());
                    lemma_skip_ws_range(f@, p + 3);
                }
                let d = skip_ws_at(f, p + 3);
                let e = digits_end_at(f, d);
                proof {
                    lemma_digits_end(f@, d as int);
                }
                Payload::Bits(number_exec(f, d, e))
            },
            None => Payload::Bits(0),
        }
    } else {
        let b = digits_start_at(f, f.len());
        proof {
            lemma_digits_start(f@, f@.len() as int);
        }
        Payload::Bits(number_exec(f, b, f.len()))
    }
}

proof fn lemma_find_from_range(s: Seq<u8>, i: int, lit: Seq<u8>)
    ensures
        find_from(s, i, lit) matches Some(p) ==> i <= p && p + lit.len() <= s.len(),
    decreases s.len() + 1 - i,
{
    if !(i < 0 || i + lit.len() > s.len()) && !lit_at(s, i, lit) {
        lemma_find_from_range(s, i + 1, lit);
    }
}

/// The payloads of one fragment `a[start..end]`.
fn emit_exec(a: &[u8], start: usize, end: usize) -> (r: Vec<Payload>)
    requires
        start <= end <= a@.len(),
    ensures
        payloads_view(r@) == emit(a@.subrange(start as int, end as int)),
{
    let frag = copy_range(a, start, end);
    let t = trim_bytes(frag.as_slice());
    let mut r: Vec<Payload> = Vec::new();
    if t.len() != 0 {
        r.push(extract_id_bytes(t.as_slice()));
        assert(payloads_view(r@) =~= seq![extract_spec(t@)]);
    } else {
        assert(payloads_view(r@) =~= Seq::<PayloadSpec>::empty());
    }
    r
}

/// Splits an argument list at commas outside parentheses and decodes each
/// non-blank fragment.
pub fn parse_args_bytes(a: &[u8]) -> (r: Vec<Payload>)
    ensures
        payloads_view(r@) == args_spec(a@),
{
    let mut out: Vec<Payload> = Vec::new();
    let mut i: usize = 0;
    let mut depth: usize = 0;
    let mut start: usize = 0;
    while i < a.len()
        invariant
            start <= i <= a@.len(),
            depth <= i,
            payloads_view(out@) + args_from(a@, i as int, depth as nat, start as int) == args_spec(a@),
        decreases a@.len() - i,
    {
        let ghost before = payloads_view(out@);
        if a[i] == 44u8 && depth == 0 {
            let mut piece = emit_exec(a, start, i);
            out.append(&mut piece);
            assert(payloads_view(out@) =~= before + emit(a@.subrange(start as int, i as int)));
            assert(before + (emit(a@.subrange(start as int, i as int)) + args_from(a@, i + 1, 0, i + 1))
                =~= payloads_view(out@) + args_from(a@, i + 1, 0, i + 1));
            start = i + 1;
            depth = 0;
        } else if a[i] == 40u8 {
            depth = depth + 1;
        } else if a[i] == 41u8 {
            if depth > 0 {
                depth = depth - 1;
            }
        }
        i = i + 1;
    }
    let ghost before = payloads_view(out@);
    let mut piece = emit_exec(a, start, a.len());
    out.append(&mut piece);
    assert(payloads_view(out@) =~= before + emit(a@.subrange(start as int, a@.len() as int)));
    out
}

/// Whether two byte strings are equal.
pub fn bytes_eq(a: &[u8], b: &[u8]) -> (r: bool)
    ensures
        r == (a@ == b@),
{
    if a.len() != b.len() {
        return false;
    }
    let mut k: usize = 0;
    while k < a.len()
        invariant
            a@.len() == b@.len(),
            k <= a@.len(),
            forall|m: int| 0 <= m < k ==> a@[m] == b@[m],
        decreases a@.len() - k,
    {
        if a[k] != b[k] {
            return false;
        }
        k = k + 1;
    }
    assert(a@ =~= b@);
    true
}

/// An argument that mentions the null pointer decodes to 0, whatever else it
/// holds.
pub proof fn lemma_null_is_zero(f: Seq<u8>)
    requires
        find_from(f, 0, kw_null()) is Some,
    ensures
        extract_spec(f) == PayloadSpec::Bits(0),
{
}

} // verus!
