use vstd::prelude::*;
use vstd::std_specs::iter::IteratorSpec;

verus! {

broadcast use vstd::string::axiom_spec_iter, vstd::string::next_postcondition;

/// A separator for the cell-text tokenizer: ASCII whitespace (space,
/// newline, tab, carriage return).
pub open spec fn is_sep(c: char) -> bool {
    c as u32 == 32 || c as u32 == 10 || c as u32 == 9 || c as u32 == 13
}

/// An ASCII decimal digit.
pub open spec fn is_digit(c: char) -> bool {
    48 <= c as u32 <= 57
}

/// The numeric value of an ASCII decimal digit.
pub open spec fn digit_val(c: char) -> int {
    c as u32 - 48
}

/// State of the cell-value reader after some prefix of the text: the values
/// emitted so far, whether the reader stands inside a token, whether that
/// token is still a well-formed cell value, and the value read so far.
pub ghost struct CellParse {
    pub out: Seq<u8>,
    pub in_token: bool,
    pub ok: bool,
    pub value: int,
}

/// The reader's state before any text.
pub open spec fn cell_parse_init() -> CellParse {
    CellParse { out: Seq::empty(), in_token: false, ok: true, value: 0 }
}

/// The values emitted once the text ends: a well-formed token still in
/// progress is emitted, anything else is dropped.
pub open spec fn cell_parse_flush(st: CellParse) -> Seq<u8> {
    if st.in_token && st.ok {
        st.out.push(st.value as u8)
    } else {
        st.out
    }
}

/// One character of reading: a separator ends the current token (emitting it
/// if it was a run of digits naming a value up to 255), a digit extends the
/// token's value, and anything else (including a value overflowing 255)
/// spoils the token, which is then dropped.
pub open spec fn cell_parse_step(st: CellParse, c: char) -> CellParse {
    if is_sep(c) {
        CellParse { out: cell_parse_flush(st), in_token: false, ok: true, value: 0 }
    } else if st.ok && is_digit(c) && st.value * 10 + digit_val(c) <= 255 {
        CellParse { out: st.out, in_token: true, ok: true, value: st.value * 10 + digit_val(c) }
    } else {
        CellParse { out: st.out, in_token: true, ok: false, value: 0 }
    }
}

/// The reader's state after the whole of `s`, starting from `st`.
pub open spec fn cell_parse_fold(s: Seq<char>, st: CellParse) -> CellParse
    decreases s.len(),
{
    if s.len() == 0 {
        st
    } else {
        cell_parse_fold(s.drop_first(), cell_parse_step(st, s[0]))
    }
}

/// The cell values held in a text: its whitespace-separated tokens that are
/// runs of decimal digits naming a value up to 255, in order; other tokens
/// are dropped.
pub open spec fn spec_cell_values(s: Seq<char>) -> Seq<u8> {
    cell_parse_flush(cell_parse_fold(s, cell_parse_init()))
}

/// Folding one more character equals stepping the fold of the prefix.
pub proof fn lemma_cell_parse_fold_snoc(s: Seq<char>, st: CellParse, c: char)
    ensures
        cell_parse_fold(s.push(c), st) == cell_parse_step(cell_parse_fold(s, st), c),
    decreases s.len(),
{
    if s.len() == 0 {
        assert(s.push(c)[0] == c);
        assert(s.push(c).drop_first() =~= Seq::<char>::empty());
        assert(cell_parse_fold(s.push(c).drop_first(), cell_parse_step(st, c))
            == cell_parse_step(st, c));
    } else {
        assert(s.push(c)[0] == s[0]);
        assert(s.push(c).drop_first() =~= s.drop_first().push(c));
        lemma_cell_parse_fold_snoc(s.drop_first(), cell_parse_step(st, s[0]), c);
        assert(cell_parse_fold(s.push(c), st) == cell_parse_fold(
            s.drop_first().push(c),
            cell_parse_step(st, s[0]),
        ));
        assert(cell_parse_fold(s, st) == cell_parse_fold(
            s.drop_first(),
            cell_parse_step(st, s[0]),
        ));
    }
}

/// Reads the cell values out of a text, as `spec_cell_values` states them.
pub fn parse_cell_values(s: &str) -> (r: Vec<u8>)
    ensures
        r@ == spec_cell_values(s@),
{
    let mut out: Vec<u8> = Vec::new();
    let mut in_token = false;
    let mut ok = true;
    let mut value: u16 = 0;
    let mut it = s.chars();
    let ghost mut taken: int = 0;
    loop
        invariant_except_break
            0 <= taken <= s@.len(),
            it.remaining() == s@.skip(taken),
            cell_parse_fold(s@.take(taken), cell_parse_init()) == (CellParse {
                out: out@,
                in_token: in_token,
                ok: ok,
                value: value as int,
            }),
            value <= 255,
        ensures
            out@ == spec_cell_values(s@),
        decreases s@.len() - taken,
    {
        let c = match it.next() {
            Some(c) => c,
            None => {
                proof {
                    assert(s@.skip(taken).len() == 0);
                    assert(taken == s@.len());
                    assert(s@.take(taken) =~= s@);
                }
                if in_token && ok {
                    out.push(value as u8);
                }
                break;
            },
        };
        let ghost st0 = CellParse { out: out@, in_token: in_token, ok: ok, value: value as int };
        proof {
            assert(s@.skip(taken)[0] == s@[taken]);
            assert(s@.skip(taken).drop_first() =~= s@.skip(taken + 1));
            assert(s@.take(taken + 1) =~= s@.take(taken).push(s@[taken]));
            lemma_cell_parse_fold_snoc(s@.take(taken), cell_parse_init(), s@[taken]);
            assert(cell_parse_fold(s@.take(taken + 1), cell_parse_init()) == cell_parse_step(
                st0,
                c,
            ));
        }
        let u = c as u32;
        if u == 32 || u == 10 || u == 9 || u == 13 {
            if in_token && ok {
                out.push(value as u8);
            }
            in_token = false;
            ok = true;
            value = 0;
        } else if ok && 48 <= u && u <= 57 && value * 10 + (u - 48) as u16 <= 255 {
            value = value * 10 + (u - 48) as u16;
            in_token = true;
        } else {
            in_token = true;
            ok = false;
            value = 0;
        }
        proof {
            taken = taken + 1;
        }
    }
    out
}

/// Every character of the text is a decimal digit.
pub open spec fn all_digits(s: Seq<char>) -> bool {
    forall|i: int| 0 <= i < s.len() ==> is_digit(#[trigger] s[i])
}

/// The number named by a run of decimal digits, most significant first.
pub open spec fn digits_value(s: Seq<char>) -> int
    decreases s.len(),
{
    if s.len() == 0 {
        0
    } else {
        digits_value(s.drop_last()) * 10 + digit_val(s.last())
    }
}

/// The text's digit run: what follows at most one leading plus sign.
pub open spec fn sign_body(s: Seq<char>) -> Seq<char> {
    if s.len() > 0 && s[0] as u32 == 43 {
        s.drop_first()
    } else {
        s
    }
}

/// The unsigned value a text names, by the standard integer grammar: an
/// optional leading plus sign, then a nonempty run of decimal digits whose
/// value fits the platform word.
pub open spec fn spec_parse_usize(s: Seq<char>) -> Option<usize> {
    let body = sign_body(s);
    if body.len() > 0 && all_digits(body) && digits_value(body) <= usize::MAX {
        Some(digits_value(body) as usize)
    } else {
        None
    }
}

/// A run of digits names a nonnegative number.
pub proof fn lemma_digits_value_nonneg(s: Seq<char>)
    requires
        all_digits(s),
    ensures
        digits_value(s) >= 0,
    decreases s.len(),
{
    if s.len() > 0 {
        assert(forall|i: int| 0 <= i < s.drop_last().len() ==> s.drop_last()[i] == s[i]);
        lemma_digits_value_nonneg(s.drop_last());
        assert(is_digit(s.last()));
    }
}

/// Extending a run of digits to the right never shrinks its value.
pub proof fn lemma_digits_value_prefix(s: Seq<char>, k: int)
    requires
        all_digits(s),
        0 <= k <= s.len(),
    ensures
        digits_value(s.take(k)) <= digits_value(s),
    decreases s.len() - k,
{
    if k < s.len() {
        assert(forall|i: int| 0 <= i < k + 1 ==> s.take(k + 1)[i] == s[i]);
        assert(all_digits(s.take(k + 1)));
        assert(s.take(k + 1).drop_last() =~= s.take(k));
        assert(s.take(k + 1).last() == s[k]);
        assert(forall|i: int| 0 <= i < k ==> s.take(k)[i] == s[i]);
        assert(all_digits(s.take(k)));
        lemma_digits_value_nonneg(s.take(k));
        assert(digits_value(s.take(k + 1)) == digits_value(s.take(k)) * 10 + digit_val(s[k]));
        assert(digits_value(s.take(k)) <= digits_value(s.take(k + 1)));
        lemma_digits_value_prefix(s, k + 1);
        assert(s.take(s.len() as int) =~= s);
    } else {
        assert(s.take(k) =~= s);
    }
}

/// Reads the unsigned value a text names, as `spec_parse_usize` states it.
pub fn parse_usize_str(s: &str) -> (r: Option<usize>)
    ensures
        r == spec_parse_usize(s@),
{
    let ghost body = sign_body(s@);
    let mut it = s.chars();
    let mut value: usize = 0;
    let mut any_digit = false;
    let ghost mut digits: int = 0;
    let ghost mut taken: int = 0;
    let first = match it.next() {
        Some(c) => c,
        None => {
            return None;
        },
    };
    let ghost off: int = if s@[0] as u32 == 43 {
        1
    } else {
        0
    };
    let u0 = first as u32;
    if u0 == 43 {
        proof {
            taken = 1;
            assert(body =~= s@.drop_first());
            assert(body.take(0) =~= Seq::<char>::empty());
            assert(digits_value(Seq::<char>::empty()) == 0);
        }
    } else if 48 <= u0 && u0 <= 57 {
        value = (u0 - 48) as usize;
        any_digit = true;
        proof {
            taken = 1;
            digits = 1;
            assert(body == s@);
            assert(body.take(1).drop_last() =~= Seq::<char>::empty());
            assert(digits_value(Seq::<char>::empty()) == 0);
            assert(body.take(1).last() == s@[0]);
            assert(forall|i: int| 0 <= i < 1 ==> is_digit(#[trigger] body.take(1)[i]));
        }
    } else {
        proof {
            assert(body == s@);
            assert(!is_digit(body[0]));
        }
        return None;
    }
    loop
        invariant_except_break
            off == (if s@.len() > 0 && s@[0] as u32 == 43 {
                1int
            } else {
                0int
            }),
            s@.len() >= 1,
            body == sign_body(s@),
            body.len() == s@.len() - off,
            forall|i: int| 0 <= i < body.len() ==> body[i] == s@[i + off],
            off <= taken <= s@.len(),
            it.remaining() == s@.skip(taken),
            digits == taken - off,
            any_digit == (digits > 0),
            all_digits(body.take(digits)),
            value == digits_value(body.take(digits)),
        ensures
            taken == s@.len(),
            digits == body.len(),
            any_digit == (digits > 0),
            all_digits(body),
            value == digits_value(body),
        decreases s@.len() - taken,
    {
        let c = match it.next() {
            Some(c) => c,
            None => {
                proof {
                    assert(s@.skip(taken).len() == 0);
                    assert(body.take(digits) =~= body);
                }
                break;
            },
        };
        proof {
            assert(s@.skip(taken)[0] == s@[taken]);
            assert(s@.skip(taken).drop_first() =~= s@.skip(taken + 1));
            assert(body[digits] == s@[taken]);
            assert(body.take(digits + 1).drop_last() =~= body.take(digits));
            assert(body.take(digits + 1).last() == body[digits]);
        }
        let u = c as u32;
        if u < 48 || u > 57 {
            proof {
                assert(!is_digit(body[digits]));
            }
            return None;
        }
        let d = (u - 48) as usize;
        if value > (usize::MAX - d) / 10 {
            proof {
                assert(forall|i: int|
                    0 <= i < digits + 1 ==> #[trigger] body.take(digits + 1)[i] == body[i]);
                assert(all_digits(body.take(digits + 1)));
                assert(digits_value(body.take(digits + 1)) == value * 10 + d);
                if all_digits(body) {
                    lemma_digits_value_prefix(body, digits + 1);
                    assert(digits_value(body) > usize::MAX);
                }
            }
            return None;
        }
        value = value * 10 + d;
        any_digit = true;
        proof {
            digits = digits + 1;
            assert(forall|i: int| 0 <= i < digits ==> #[trigger] body.take(digits)[i] == body[i]);
            assert(all_digits(body.take(digits)));
            taken = taken + 1;
        }
    }
    if !any_digit {
        proof {
            assert(body.len() == 0);
        }
        return None;
    }
    Some(value)
}

/// Whether two texts hold the same characters.
pub fn str_eq(a: &str, b: &str) -> (r: bool)
    ensures
        r == (a@ == b@),
{
    let mut ia = a.chars();
    let mut ib = b.chars();
    let ghost mut taken: int = 0;
    loop
        invariant_except_break
            0 <= taken <= a@.len(),
            taken <= b@.len(),
            ia.remaining() == a@.skip(taken),
            ib.remaining() == b@.skip(taken),
            a@.take(taken) == b@.take(taken),
        ensures
            (a@ == b@),
        decreases a@.len() - taken,
    {
        let x = ia.next();
        let y = ib.next();
        match (x, y) {
            (Some(cx), Some(cy)) => {
                if cx != cy {
                    proof {
                        assert(a@[taken] != b@[taken]);
                    }
                    return false;
                }
                proof {
                    assert(a@.take(taken + 1) =~= a@.take(taken).push(a@[taken]));
                    assert(b@.take(taken + 1) =~= b@.take(taken).push(b@[taken]));
                    taken = taken + 1;
                }
            },
            (None, None) => {
                proof {
                    assert(taken == a@.len());
                    assert(taken == b@.len());
                    assert(a@.take(taken) =~= a@);
                    assert(b@.take(taken) =~= b@);
                }
                break;
            },
            (Some(_), None) => {
                proof {
                    assert(taken == b@.len());
                    assert(a@.len() > taken);
                }
                return false;
            },
            (None, Some(_)) => {
                proof {
                    assert(taken == a@.len());
                    assert(b@.len() > taken);
                }
                return false;
            },
        }
    }
    true
}

} // verus!
