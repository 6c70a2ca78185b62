//! The selection-expression parser: turns operator input such as
//! `"1 3-5 11"` into a validated, deduplicated, ordered list of
//! 0-based indices into a bounded result list.

use vstd::prelude::*;
use crate::response::Beatmap;

verus! {

// ---------------------------------------------------------------
// Tokenization: the input splits on whitespace into tokens.
// ---------------------------------------------------------------

/// Whitespace for the purposes of selection input.
pub open spec fn is_space(c: char) -> bool {
    c == ' ' || c == '\t' || c == '\n' || c == '\r'
}

/// Length of the leading run of non-space characters.
pub open spec fn run_len(s: Seq<char>) -> nat
    decreases s.len(),
{
    if s.len() == 0 || is_space(s[0]) {
        0
    } else {
        1 + run_len(s.drop_first())
    }
}

/// The whitespace-separated tokens of the input, in order; runs of
/// spaces produce no empty tokens.
pub open spec fn tokens_of(s: Seq<char>) -> Seq<Seq<char>>
    decreases s.len(),
    via tokens_of_decreases
{
    if s.len() == 0 {
        seq![]
    } else if is_space(s[0]) {
        tokens_of(s.drop_first())
    } else {
        seq![s.take(run_len(s) as int)] + tokens_of(s.skip(run_len(s) as int))
    }
}

proof fn lemma_run_len_bound(s: Seq<char>)
    ensures
        run_len(s) <= s.len(),
    decreases s.len(),
{
    if s.len() > 0 && !is_space(s[0]) {
        lemma_run_len_bound(s.drop_first());
    }
}

#[via_fn]
proof fn tokens_of_decreases(s: Seq<char>) {
    if s.len() > 0 && !is_space(s[0]) {
        lemma_run_len_bound(s);
    }
}

/// The views of a vector of token strings.
pub open spec fn views_of(toks: Seq<String>) -> Seq<Seq<char>> {
    toks.map_values(|t: String| t@)
}

// ---------------------------------------------------------------
// Numbers: a token part is a non-empty digit string whose value
// fits the machine.
// ---------------------------------------------------------------

pub open spec fn is_digit_char(c: char) -> bool {
    c == '0' || c == '1' || c == '2' || c == '3' || c == '4' || c == '5' || c == '6' || c == '7'
        || c == '8' || c == '9'
}

pub open spec fn digit_value(c: char) -> nat {
    if c == '1' {
        1
    } else if c == '2' {
        2
    } else if c == '3' {
        3
    } else if c == '4' {
        4
    } else if c == '5' {
        5
    } else if c == '6' {
        6
    } else if c == '7' {
        7
    } else if c == '8' {
        8
    } else if c == '9' {
        9
    } else {
        0
    }
}

pub open spec fn all_digits(t: Seq<char>) -> bool {
    forall|i: int| 0 <= i < t.len() ==> is_digit_char(#[trigger] t[i])
}

/// Value of a digit string read in base ten.
pub open spec fn digits_value(t: Seq<char>) -> nat
    decreases t.len(),
{
    if t.len() == 0 {
        0
    } else {
        digits_value(t.drop_last()) * 10 + digit_value(t.last())
    }
}

/// How a token part parses as an index: non-empty, all digits, and
/// small enough for the machine.
pub open spec fn spec_parse_number(t: Seq<char>) -> Option<nat> {
    if t.len() > 0 && all_digits(t) && digits_value(t) <= usize::MAX as nat {
        Some(digits_value(t))
    } else {
        None
    }
}

// ---------------------------------------------------------------
// Token shapes: single index or inclusive range `lo-hi`.
// ---------------------------------------------------------------

/// Position of the first range separator, or the length when none.
pub open spec fn sep_pos(t: Seq<char>) -> nat
    decreases t.len(),
{
    if t.len() == 0 || t[0] == '-' {
        0
    } else {
        1 + sep_pos(t.drop_first())
    }
}

pub open spec fn has_sep(t: Seq<char>) -> bool {
    sep_pos(t) < t.len()
}

/// Spec-level image of a selection error, over sequences and naturals.
pub enum SelErrorModel {
    InvalidIndex(Seq<char>),
    InvalidRange(Seq<char>),
    OutOfRange(nat, nat),
}

/// The 0-based indices named by the 1-based inclusive range `lo-hi`.
pub open spec fn range_indices(lo: nat, hi: nat) -> Seq<usize> {
    Seq::new((hi + 1 - lo) as nat, |j: int| (lo - 1 + j) as usize)
}

/// Meaning of a token that contains a separator.
pub open spec fn range_token_indices(t: Seq<char>, n: nat) -> Result<Seq<usize>, SelErrorModel> {
    let lo_part = t.take(sep_pos(t) as int);
    let hi_part = t.skip(sep_pos(t) as int + 1);
    if has_sep(hi_part) {
        Err(SelErrorModel::InvalidRange(t))
    } else {
        match (spec_parse_number(lo_part), spec_parse_number(hi_part)) {
            (Some(lo), Some(hi)) => if lo > hi {
                Err(SelErrorModel::InvalidRange(t))
            } else if lo < 1 {
                Err(SelErrorModel::OutOfRange(lo, n))
            } else if hi > n {
                Err(SelErrorModel::OutOfRange(hi, n))
            } else {
                Ok(range_indices(lo, hi))
            },
            _ => Err(SelErrorModel::InvalidRange(t)),
        }
    }
}

/// Meaning of a token without a separator.
pub open spec fn single_token_indices(t: Seq<char>, n: nat) -> Result<Seq<usize>, SelErrorModel> {
    match spec_parse_number(t) {
        Some(v) => if 1 <= v && v <= n {
            Ok(seq![(v - 1) as usize])
        } else {
            Err(SelErrorModel::OutOfRange(v, n))
        },
        None => Err(SelErrorModel::InvalidIndex(t)),
    }
}

/// Meaning of one token against `n` available entries.
pub open spec fn token_indices(t: Seq<char>, n: nat) -> Result<Seq<usize>, SelErrorModel> {
    if has_sep(t) {
        range_token_indices(t, n)
    } else {
        single_token_indices(t, n)
    }
}

// ---------------------------------------------------------------
// Resolution: tokens left to right, first error wins, exact
// duplicates collapsed while the first occurrence keeps its place.
// ---------------------------------------------------------------

/// Appends each element of `xs` to `acc` unless already present.
pub open spec fn push_unique(acc: Seq<usize>, xs: Seq<usize>) -> Seq<usize>
    decreases xs.len(),
{
    if xs.len() == 0 {
        acc
    } else {
        push_unique(
            if acc.contains(xs[0]) {
                acc
            } else {
                acc.push(xs[0])
            },
            xs.drop_first(),
        )
    }
}

pub open spec fn resolve_tokens(toks: Seq<Seq<char>>, n: nat, acc: Seq<usize>) -> Result<
    Seq<usize>,
    SelErrorModel,
>
    decreases toks.len(),
{
    if toks.len() == 0 {
        Ok(acc)
    } else {
        match token_indices(toks[0], n) {
            Ok(xs) => resolve_tokens(toks.drop_first(), n, push_unique(acc, xs)),
            Err(e) => Err(e),
        }
    }
}

/// Full meaning of a selection string against `n` available entries.
pub open spec fn spec_parse_selection(s: Seq<char>, n: nat) -> Result<Seq<usize>, SelErrorModel> {
    resolve_tokens(tokens_of(s), n, seq![])
}

// ---------------------------------------------------------------
// The executable error type and its tie to the model.
// ---------------------------------------------------------------

/// A rejected selection: the offending token is echoed back, and an
/// out-of-range value is reported with the available count.
pub enum SelectionError {
    InvalidIndex(String),
    InvalidRange(String),
    OutOfRange(usize, usize),
}

pub open spec fn error_matches(e: SelectionError, m: SelErrorModel) -> bool {
    match (e, m) {
        (SelectionError::InvalidIndex(t), SelErrorModel::InvalidIndex(u)) => t@ == u,
        (SelectionError::InvalidRange(t), SelErrorModel::InvalidRange(u)) => t@ == u,
        (SelectionError::OutOfRange(v, c), SelErrorModel::OutOfRange(mv, mc)) => v as nat == mv
            && c as nat == mc,
        _ => false,
    }
}

pub open spec fn result_matches(
    r: Result<Vec<usize>, SelectionError>,
    m: Result<Seq<usize>, SelErrorModel>,
) -> bool {
    match (r, m) {
        (Ok(v), Ok(s)) => v@ == s,
        (Err(e), Err(em)) => error_matches(e, em),
        _ => false,
    }
}

// ---------------------------------------------------------------
// Lemmas.
// ---------------------------------------------------------------

proof fn lemma_digits_value_monotone(t: Seq<char>, i: int)
    requires
        0 <= i <= t.len(),
    ensures
        digits_value(t.take(i)) <= digits_value(t),
    decreases t.len(),
{
    if i < t.len() {
        assert(t.drop_last().take(i) =~= t.take(i));
        lemma_digits_value_monotone(t.drop_last(), i);
    } else {
        assert(t.take(i) =~= t);
    }
}

proof fn lemma_push_unique_snoc(acc: Seq<usize>, xs: Seq<usize>, x: usize)
    ensures
        push_unique(acc, xs.push(x)) == ({
            let p = push_unique(acc, xs);
            if p.contains(x) {
                p
            } else {
                p.push(x)
            }
        }),
    decreases xs.len(),
{
    if xs.len() == 0 {
        assert(xs.push(x)[0] == x);
        let acc2 = if acc.contains(x) {
            acc
        } else {
            acc.push(x)
        };
        assert(xs.push(x).drop_first() =~= Seq::<usize>::empty());
        assert(push_unique(acc, xs.push(x)) == push_unique(acc2, xs.push(x).drop_first()));
        assert(push_unique(acc2, Seq::<usize>::empty()) == acc2);
        assert(push_unique(acc, xs) == acc);
    } else {
        assert(xs.push(x)[0] == xs[0]);
        assert(xs.push(x).drop_first() =~= xs.drop_first().push(x));
        let acc2 = if acc.contains(xs[0]) {
            acc
        } else {
            acc.push(xs[0])
        };
        assert(push_unique(acc, xs.push(x)) == push_unique(acc2, xs.drop_first().push(x)));
        assert(push_unique(acc, xs) == push_unique(acc2, xs.drop_first()));
        lemma_push_unique_snoc(acc2, xs.drop_first(), x);
    }
}

proof fn lemma_resolve_step(toks: Seq<Seq<char>>, i: int, n: nat, acc: Seq<usize>)
    requires
        0 <= i < toks.len(),
    ensures
        (resolve_tokens(toks.skip(i), n, acc) == (match token_indices(toks[i], n) {
            Ok(xs) => resolve_tokens(toks.skip(i + 1), n, push_unique(acc, xs)),
            Err(e) => Err::<Seq<usize>, SelErrorModel>(e),
        })),
{
    assert(toks.skip(i)[0] == toks[i]);
    assert(toks.skip(i).drop_first() =~= toks.skip(i + 1));
}

// ---------------------------------------------------------------
// Executable parsing.
// ---------------------------------------------------------------

fn char_is_space(c: char) -> (b: bool)
    ensures
        b == is_space(c),
{
    c == ' ' || c == '\t' || c == '\n' || c == '\r'
}

fn char_digit(c: char) -> (r: Option<usize>)
    ensures
        (match r {
            Some(d) => is_digit_char(c) && d as nat == digit_value(c) && d < 10,
            None => !is_digit_char(c),
        }),
{
    match c {
        '0' => Some(0),
        '1' => Some(1),
        '2' => Some(2),
        '3' => Some(3),
        '4' => Some(4),
        '5' => Some(5),
        '6' => Some(6),
        '7' => Some(7),
        '8' => Some(8),
        '9' => Some(9),
        _ => None,
    }
}

/// Position of the first `-` in the token, if any.
fn find_sep(t: &str) -> (r: Option<usize>)
    ensures
        (match r {
            Some(i) => i as nat == sep_pos(t@) && i < t@.len(),
            None => sep_pos(t@) == t@.len(),
        }),
{
    let n = t.unicode_len();
    let mut i: usize = 0;
    proof {
        assert(t@.skip(0) =~= t@);
    }
    while i < n
        invariant
            n == t@.len(),
            i <= n,
            sep_pos(t@) == i + sep_pos(t@.skip(i as int)),
        decreases n - i,
    {
        let c = t.get_char(i);
        proof {
            assert(t@.skip(i as int)[0] == t@[i as int]);
            assert(t@.skip(i as int).drop_first() =~= t@.skip(i as int + 1));
        }
        if c == '-' {
            return Some(i);
        }
        i = i + 1;
    }
    proof {
        assert(t@.skip(n as int) =~= Seq::<char>::empty());
    }
    None
}

/// Parses a whole token part as a machine-sized number.
fn parse_number(t: &str) -> (r: Option<usize>)
    ensures
        (match r {
            Some(v) => spec_parse_number(t@) == Some(v as nat),
            None => spec_parse_number(t@) is None,
        }),
{
    let n = t.unicode_len();
    if n == 0 {
        return None;
    }
    let mut acc: usize = 0;
    let mut i: usize = 0;
    while i < n
        invariant
            n == t@.len(),
            n > 0,
            i <= n,
            acc as nat == digits_value(t@.take(i as int)),
            forall|j: int| 0 <= j < i ==> is_digit_char(#[trigger] t@[j]),
        decreases n - i,
    {
        let c = t.get_char(i);
        let d = match char_digit(c) {
            Some(d) => d,
            None => {
                proof {
                    assert(!all_digits(t@));
                }
                return None;
            },
        };
        proof {
            assert(t@.take(i as int + 1).drop_last() =~= t@.take(i as int));
            assert(t@.take(i as int + 1).last() == t@[i as int]);
        }
        if acc > (usize::MAX - d) / 10 {
            proof {
                assert(acc * 10 + d > usize::MAX) by (nonlinear_arith)
                    requires
                        acc > (usize::MAX - d) / 10,
                        0 <= d < 10,
                        usize::MAX >= 10,
                ;
                if all_digits(t@) {
                    lemma_digits_value_monotone(t@, i as int + 1);
                }
            }
            return None;
        }
        proof {
            assert(acc * 10 + d <= usize::MAX) by (nonlinear_arith)
                requires
                    acc <= (usize::MAX - d) / 10,
                    0 <= d < 10,
            ;
        }
        acc = acc * 10 + d;
        i = i + 1;
    }
    proof {
        assert(t@.take(n as int) =~= t@);
    }
    Some(acc)
}

/// Splits the raw input on whitespace, dropping empty tokens.
fn split_tokens(s: &str) -> (toks: Vec<String>)
    ensures
        views_of(toks@) == tokens_of(s@),
{
    let n = s.unicode_len();
    let mut toks: Vec<String> = Vec::new();
    let mut i: usize = 0;
    proof {
        assert(s@.skip(0) =~= s@);
        assert(views_of(toks@) =~= Seq::<Seq<char>>::empty());
    }
    while i < n
        invariant
            n == s@.len(),
            i <= n,
            tokens_of(s@) == views_of(toks@) + tokens_of(s@.skip(i as int)),
        decreases n - i,
    {
        let c = s.get_char(i);
        proof {
            assert(s@.skip(i as int)[0] == s@[i as int]);
            assert(s@.skip(i as int).drop_first() =~= s@.skip(i as int + 1));
        }
        if char_is_space(c) {
            i = i + 1;
        } else {
            let ghost tail = s@.skip(i as int);
            let mut j: usize = i;
            loop
                invariant_except_break
                    n == s@.len(),
                    i <= j <= n,
                    !is_space(s@[i as int]),
                    run_len(tail) == (j - i) + run_len(s@.skip(j as int)),
                    tail == s@.skip(i as int),
                ensures
                    i <= j <= n,
                    run_len(tail) == j - i,
                    tail == s@.skip(i as int),
                decreases n - j,
            {
                if j >= n {
                    proof {
                        assert(s@.skip(j as int) =~= Seq::<char>::empty());
                    }
                    break;
                }
                let cj = s.get_char(j);
                proof {
                    assert(s@.skip(j as int)[0] == s@[j as int]);
                    assert(s@.skip(j as int).drop_first() =~= s@.skip(j as int + 1));
                }
                if char_is_space(cj) {
                    break;
                }
                j = j + 1;
            }
            proof {
                assert(run_len(tail) >= 1);
            }
            let tok = s.substring_char(i, j).to_owned();
            proof {
                assert(tail.take(run_len(tail) as int) =~= s@.subrange(i as int, j as int));
                assert(tail.skip(run_len(tail) as int) =~= s@.skip(j as int));
                assert(views_of(toks@.push(tok)) =~= views_of(toks@).push(tok@));
                assert(views_of(toks@) + seq![tok@] + tokens_of(s@.skip(j as int)) =~= views_of(
                    toks@,
                ).push(tok@) + tokens_of(s@.skip(j as int)));
            }
            toks.push(tok);
            i = j;
        }
    }
    proof {
        assert(s@.skip(n as int) =~= Seq::<char>::empty());
        assert(views_of(toks@) + Seq::<Seq<char>>::empty() =~= views_of(toks@));
    }
    toks
}

/// Appends `x` unless it is already selected; first occurrence keeps
/// its place.
fn push_index_unique(out: &mut Vec<usize>, x: usize)
    ensures
        (final(out)@ == (if old(out)@.contains(x) {
            old(out)@
        } else {
            old(out)@.push(x)
        })),
{
    let mut i: usize = 0;
    while i < out.len()
        invariant
            i <= out@.len(),
            forall|j: int| 0 <= j < i ==> out@[j] != x,
            out@ == old(out)@,
        decreases out@.len() - i,
    {
        if out[i] == x {
            return ;
        }
        i = i + 1;
    }
    out.push(x);
}

/// Parses a selection expression against `available_count` entries.
///
/// Returns the selected 0-based indices in first-mention order with
/// exact duplicates collapsed, or the error for the first bad token.
/// Every returned index is strictly below `available_count`.
pub fn parse_selection(raw: &str, available_count: usize) -> (r: Result<
    Vec<usize>,
    SelectionError,
>)
    ensures
        result_matches(r, spec_parse_selection(raw@, available_count as nat)),
        (match r {
            Ok(v) => {
                &&& forall|k: int| 0 <= k < v@.len() ==> v@[k] < available_count
                &&& v@.no_duplicates()
            },
            Err(_) => spec_parse_selection(raw@, available_count as nat) is Err,
        }),
{
    let toks = split_tokens(raw);
    let ghost spec_toks = tokens_of(raw@);
    let ghost n = available_count as nat;
    let mut out: Vec<usize> = Vec::new();
    let mut ti: usize = 0;
    proof {
        assert(spec_toks.skip(0) =~= spec_toks);
    }
    while ti < toks.len()
        invariant
            views_of(toks@) == spec_toks,
            spec_toks == tokens_of(raw@),
            n == available_count as nat,
            ti <= toks@.len(),
            spec_parse_selection(raw@, n) == resolve_tokens(
                spec_toks.skip(ti as int),
                n,
                out@,
            ),
            forall|k: int| 0 <= k < out@.len() ==> out@[k] < available_count,
            out@.no_duplicates(),
        decreases toks@.len() - ti,
    {
        proof {
            lemma_resolve_step(spec_toks, ti as int, n, out@);
            assert(spec_toks[ti as int] == toks@[ti as int]@);
        }
        let t: &String = &toks[ti];
        let ghost tv = t@;
        match find_sep(t.as_str()) {
            None => {
                // single index token
                match parse_number(t.as_str()) {
                    None => {
                        return Err(SelectionError::InvalidIndex(t.clone()));
                    },
                    Some(v) => {
                        if 1 <= v && v <= available_count {
                            let ghost out0 = out@;
                            let ghost xx = (v - 1) as usize;
                            push_index_unique(&mut out, v - 1);
                            proof {
                                assert(token_indices(tv, n) == Ok::<Seq<usize>, SelErrorModel>(
                                    seq![xx],
                                ));
                                assert(seq![xx][0] == xx);
                                let out1 = if out0.contains(xx) {
                                    out0
                                } else {
                                    out0.push(xx)
                                };
                                assert(seq![xx].drop_first() =~= Seq::<usize>::empty());
                                assert(push_unique(out0, seq![xx]) == push_unique(
                                    out1,
                                    seq![xx].drop_first(),
                                ));
                                assert(push_unique(out1, Seq::<usize>::empty()) == out1);
                                assert(out@ == out1);
                            }
                        } else {
                            return Err(SelectionError::OutOfRange(v, available_count));
                        }
                    },
                }
            },
            Some(p) => {
                // range token `lo-hi`
                let tlen = t.as_str().unicode_len();
                let lo_str = t.as_str().substring_char(0, p);
                let hi_str = t.as_str().substring_char(p + 1, tlen);
                proof {
                    assert(lo_str@ =~= tv.take(sep_pos(tv) as int));
                    assert(hi_str@ =~= tv.skip(sep_pos(tv) as int + 1));
                }
                if let Some(_q) = find_sep(hi_str) {
                    return Err(SelectionError::InvalidRange(t.clone()));
                }
                let lo = match parse_number(lo_str) {
                    Some(lo) => lo,
                    None => {
                        return Err(SelectionError::InvalidRange(t.clone()));
                    },
                };
                let hi = match parse_number(hi_str) {
                    Some(hi) => hi,
                    None => {
                        return Err(SelectionError::InvalidRange(t.clone()));
                    },
                };
                if lo > hi {
                    return Err(SelectionError::InvalidRange(t.clone()));
                }
                if lo < 1 {
                    return Err(SelectionError::OutOfRange(lo, available_count));
                }
                if hi > available_count {
                    return Err(SelectionError::OutOfRange(hi, available_count));
                }
                proof {
                    assert(token_indices(tv, n) == Ok::<Seq<usize>, SelErrorModel>(
                        range_indices(lo as nat, hi as nat),
                    ));
                }
                let ghost out0 = out@;
                let ghost rng = range_indices(lo as nat, hi as nat);
                let cnt = hi - lo + 1;
                let mut off: usize = 0;
                proof {
                    assert(rng.take(0) =~= Seq::<usize>::empty());
                }
                while off < cnt
                    invariant
                        1 <= lo <= hi <= available_count,
                        cnt == hi - lo + 1,
                        off <= cnt,
                        rng == range_indices(lo as nat, hi as nat),
                        out@ == push_unique(out0, rng.take(off as int)),
                        forall|kk: int| 0 <= kk < out@.len() ==> out@[kk] < available_count,
                        out@.no_duplicates(),
                    decreases cnt - off,
                {
                    let x = lo - 1 + off;
                    proof {
                        assert(rng[off as int] == x);
                        assert(rng.take(off as int + 1) =~= rng.take(off as int).push(x));
                        lemma_push_unique_snoc(out0, rng.take(off as int), x);
                    }
                    push_index_unique(&mut out, x);
                    off = off + 1;
                }
                proof {
                    assert(rng.take(cnt as int) =~= rng);
                }
            },
        }
        ti = ti + 1;
        proof {
            assert(views_of(toks@)[ti - 1] == toks@[ti - 1]@);
        }
    }
    proof {
        assert(spec_toks.skip(toks@.len() as int) =~= Seq::<Seq<char>>::empty());
    }
    Ok(out)
}

/// Picks the entries named by validated indices, in selection order.
pub fn select_entries(entries: &Vec<Beatmap>, indices: &Vec<usize>) -> (r: Vec<Beatmap>)
    requires
        forall|k: int| 0 <= k < indices@.len() ==> indices@[k] < entries@.len(),
    ensures
        r@.len() == indices@.len(),
        forall|k: int| 0 <= k < indices@.len() ==> r@[k]@ == entries@[#[trigger] indices@[k] as int]@,
{
    let mut r: Vec<Beatmap> = Vec::new();
    let mut i: usize = 0;
    while i < indices.len()
        invariant
            i <= indices@.len(),
            r@.len() == i,
            forall|k: int| 0 <= k < indices@.len() ==> indices@[k] < entries@.len(),
            forall|k: int|
                0 <= k < i ==> r@[k]@ == entries@[#[trigger] indices@[k] as int]@,
        decreases indices@.len() - i,
    {
        let idx = indices[i];
        r.push(entries[idx].clone());
        i = i + 1;
    }
    r
}

} // verus!
