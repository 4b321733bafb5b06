//! Decoding raw queue entries into typed jobs.
//!
//! A raw entry is a byte payload with no guaranteed structure.  A well-formed
//! entry is a structured-text (JSON) object with a non-empty string field
//! `job_type` and a `payload` field holding an arbitrary value.  The grammar
//! of entries is written down here as spec functions over byte sequences, and
//! the executable decoder is proved to accept exactly that grammar: it
//! returns the `job_type` discriminator and the raw bytes of the `payload`
//! value, or says precisely why the entry is refused.

use vstd::prelude::*;

verus! {

/// Why a raw entry was refused.  A decode failure is local: the entry is
/// dropped and logged by the caller, and never stops the poll loop.
#[derive(Clone, Copy, Debug, PartialEq, Eq, Structural)]
pub enum DecodeError {
    /// The bytes are not one well-formed structured-text object.
    Malformed,
    /// The object has no `job_type` member whose value is a non-empty string.
    MissingJobType,
    /// The object has no `payload` member.
    MissingPayload,
}

/// A decoded unit of work.  Immutable once decoded: executors only read it.
#[derive(Clone, Debug, PartialEq, Eq)]
pub struct Job {
    /// Discriminator selecting the handler; content bytes of a non-empty
    /// string value.
    pub job_type: Vec<u8>,
    /// The raw bytes of the entry's `payload` value, kept opaque: the
    /// dispatcher never validates it against a schema, only the handler for
    /// the specific kind reads it.
    pub payload: Vec<u8>,
}

pub const QUOTE: u8 = 0x22;
pub const BACKSLASH: u8 = 0x5c;
pub const LBRACE: u8 = 0x7b;
pub const RBRACE: u8 = 0x7d;
pub const LBRACKET: u8 = 0x5b;
pub const RBRACKET: u8 = 0x5d;
pub const COMMA: u8 = 0x2c;
pub const COLON: u8 = 0x3a;
pub const MINUS: u8 = 0x2d;
pub const PLUS: u8 = 0x2b;
pub const DOT: u8 = 0x2e;
pub const ZERO: u8 = 0x30;
pub const NINE: u8 = 0x39;

pub open spec fn is_ws(b: u8) -> bool {
    b == 0x20 || b == 0x09 || b == 0x0a || b == 0x0d
}

pub open spec fn is_digit(b: u8) -> bool {
    ZERO <= b && b <= NINE
}

pub open spec fn is_hex_digit(b: u8) -> bool {
    is_digit(b) || (0x61 <= b && b <= 0x66) || (0x41 <= b && b <= 0x46)
}

/// Escapes that stand for themselves after a backslash: `" \ / b f n r t`.
pub open spec fn is_simple_escape(b: u8) -> bool {
    b == QUOTE || b == BACKSLASH || b == 0x2f || b == 0x62 || b == 0x66 || b == 0x6e || b == 0x72
        || b == 0x74
}

/// The index of the first non-whitespace byte at or after `i`.
pub open spec fn spec_skip_ws(s: Seq<u8>, i: int) -> int
    decreases s.len() - i when 0 <= i <= s.len()
{
    if i < s.len() && is_ws(s[i]) {
        spec_skip_ws(s, i + 1)
    } else {
        i
    }
}

/// The rest of a string literal: `i` points just past the opening quote (or
/// past any prefix of the content).  Returns the index just past the closing
/// quote, or `None` if the bytes are not a well-formed string tail.
pub open spec fn spec_string_tail(s: Seq<u8>, i: int) -> Option<int>
    decreases s.len() - i when 0 <= i <= s.len()
{
    if i >= s.len() {
        None
    } else if s[i] == QUOTE {
        Some(i + 1)
    } else if s[i] == BACKSLASH {
        if s.len() - i > 1 && is_simple_escape(s[i + 1]) {
            spec_string_tail(s, i + 2)
        } else if s.len() - i > 5 && s[i + 1] == 0x75 && is_hex_digit(s[i + 2]) && is_hex_digit(
            s[i + 3],
        ) && is_hex_digit(s[i + 4]) && is_hex_digit(s[i + 5]) {
            spec_string_tail(s, i + 6)
        } else {
            None
        }
    } else if s[i] < 0x20 {
        None
    } else {
        spec_string_tail(s, i + 1)
    }
}

/// The index just past the run of decimal digits starting at `i`.
pub open spec fn spec_skip_digits(s: Seq<u8>, i: int) -> int
    decreases s.len() - i when 0 <= i <= s.len()
{
    if i < s.len() && is_digit(s[i]) {
        spec_skip_digits(s, i + 1)
    } else {
        i
    }
}

/// A number starting at `i`: optional minus, integer part (a lone zero or a
/// nonzero digit followed by digits), optional fraction, optional exponent.
/// Returns the index just past the number.
pub open spec fn spec_number(s: Seq<u8>, i: int) -> Option<int> {
    let i1 = if i < s.len() && s[i] == MINUS {
        i + 1
    } else {
        i
    };
    if i1 >= s.len() || !is_digit(s[i1]) {
        None
    } else {
        let i2 = if s[i1] == ZERO {
            i1 + 1
        } else {
            spec_skip_digits(s, i1)
        };
        let i3 = if i2 < s.len() && s[i2] == DOT {
            if i2 + 1 < s.len() && is_digit(s[i2 + 1]) {
                spec_skip_digits(s, i2 + 1)
            } else {
                -1
            }
        } else {
            i2
        };
        if i3 < 0 {
            None
        } else if i3 < s.len() && (s[i3] == 0x65 || s[i3] == 0x45) {
            let i4 = if i3 + 1 < s.len() && (s[i3 + 1] == PLUS || s[i3 + 1] == MINUS) {
                i3 + 2
            } else {
                i3 + 1
            };
            if i4 < s.len() && is_digit(s[i4]) {
                Some(spec_skip_digits(s, i4))
            } else {
                None
            }
        } else {
            Some(i3)
        }
    }
}

/// True when the four bytes of `word` stand at `i`.
pub open spec fn spec_word_at(s: Seq<u8>, i: int, word: Seq<u8>) -> bool {
    s.len() - i >= word.len() && s.subrange(i, i + word.len()) == word
}

pub open spec fn true_word() -> Seq<u8> {
    seq![0x74u8, 0x72u8, 0x75u8, 0x65u8]
}

pub open spec fn false_word() -> Seq<u8> {
    seq![0x66u8, 0x61u8, 0x6cu8, 0x73u8, 0x65u8]
}

pub open spec fn null_word() -> Seq<u8> {
    seq![0x6eu8, 0x75u8, 0x6cu8, 0x6cu8]
}

/// A structured-text value starting exactly at `i` (no leading whitespace).
/// Returns the index just past the value.  `fuel` bounds the nesting the
/// grammar admits; the decoder reads every entry with the generous
/// [`entry_fuel`] bound, and the executable parser is proved to agree with
/// the grammar at that same bound.
pub open spec fn spec_value(s: Seq<u8>, i: int, fuel: nat) -> Option<int>
    decreases fuel,
{
    if fuel == 0 {
        None
    } else if i < 0 || i >= s.len() {
        None
    } else if s[i] == QUOTE {
        spec_string_tail(s, i + 1)
    } else if s[i] == LBRACE {
        spec_members(s, spec_skip_ws(s, i + 1), (fuel - 1) as nat, true)
    } else if s[i] == LBRACKET {
        spec_elements(s, spec_skip_ws(s, i + 1), (fuel - 1) as nat, true)
    } else if s[i] == MINUS || is_digit(s[i]) {
        spec_number(s, i)
    } else if spec_word_at(s, i, true_word()) {
        Some(i + 4)
    } else if spec_word_at(s, i, false_word()) {
        Some(i + 5)
    } else if spec_word_at(s, i, null_word()) {
        Some(i + 4)
    } else {
        None
    }
}

/// The members of an object, starting at the first key (or at the closing
/// brace when `first` holds and the object is empty); `i` points past any
/// whitespace.  Returns the index just past the closing brace.
pub open spec fn spec_members(s: Seq<u8>, i: int, fuel: nat, first: bool) -> Option<int>
    decreases fuel,
{
    if fuel == 0 {
        None
    } else if i < 0 || i >= s.len() {
        None
    } else if first && s[i] == RBRACE {
        Some(i + 1)
    } else if s[i] != QUOTE {
        None
    } else {
        match spec_string_tail(s, i + 1) {
            None => None,
            Some(j) => {
                let j1 = spec_skip_ws(s, j);
                if j1 >= s.len() || s[j1] != COLON {
                    None
                } else {
                    match spec_value(s, spec_skip_ws(s, j1 + 1), (fuel - 1) as nat) {
                        None => None,
                        Some(k) => {
                            let k1 = spec_skip_ws(s, k);
                            if k1 >= s.len() {
                                None
                            } else if s[k1] == COMMA {
                                spec_members(s, spec_skip_ws(s, k1 + 1), (fuel - 1) as nat, false)
                            } else if s[k1] == RBRACE {
                                Some(k1 + 1)
                            } else {
                                None
                            }
                        },
                    }
                }
            },
        }
    }
}

/// The elements of an array, starting at the first value (or at the closing
/// bracket when `first` holds and the array is empty); `i` points past any
/// whitespace.  Returns the index just past the closing bracket.
pub open spec fn spec_elements(s: Seq<u8>, i: int, fuel: nat, first: bool) -> Option<int>
    decreases fuel,
{
    if fuel == 0 {
        None
    } else if i < 0 || i >= s.len() {
        None
    } else if first && s[i] == RBRACKET {
        Some(i + 1)
    } else {
        match spec_value(s, i, (fuel - 1) as nat) {
            None => None,
            Some(k) => {
                let k1 = spec_skip_ws(s, k);
                if k1 >= s.len() {
                    None
                } else if s[k1] == COMMA {
                    spec_elements(s, spec_skip_ws(s, k1 + 1), (fuel - 1) as nat, false)
                } else if s[k1] == RBRACKET {
                    Some(k1 + 1)
                } else {
                    None
                }
            },
        }
    }
}

/// The grammar is monotone in its fuel: a value it accepts at some bound it
/// accepts, unchanged, at every larger bound.  The fuel therefore only ever
/// rules nesting in, never parses an entry two ways.
pub proof fn lemma_value_fuel_monotone(s: Seq<u8>, i: int, f1: nat, f2: nat)
    requires
        f1 <= f2,
        spec_value(s, i, f1) is Some,
    ensures
        spec_value(s, i, f2) == spec_value(s, i, f1),
    decreases f1,
{
    if s[i] == LBRACE {
        lemma_members_fuel_monotone(s, spec_skip_ws(s, i + 1), (f1 - 1) as nat, (f2 - 1) as nat, true);
    } else if s[i] == LBRACKET {
        lemma_elements_fuel_monotone(
            s,
            spec_skip_ws(s, i + 1),
            (f1 - 1) as nat,
            (f2 - 1) as nat,
            true,
        );
    }
}

proof fn lemma_members_fuel_monotone(s: Seq<u8>, i: int, f1: nat, f2: nat, first: bool)
    requires
        f1 <= f2,
        spec_members(s, i, f1, first) is Some,
    ensures
        spec_members(s, i, f2, first) == spec_members(s, i, f1, first),
    decreases f1,
{
    if !(first && s[i] == RBRACE) {
        let j = spec_string_tail(s, i + 1)->Some_0;
        let j1 = spec_skip_ws(s, j);
        let v = spec_skip_ws(s, j1 + 1);
        lemma_value_fuel_monotone(s, v, (f1 - 1) as nat, (f2 - 1) as nat);
        let k = spec_value(s, v, (f1 - 1) as nat)->Some_0;
        let k1 = spec_skip_ws(s, k);
        if k1 < s.len() && s[k1] == COMMA {
            lemma_members_fuel_monotone(
                s,
                spec_skip_ws(s, k1 + 1),
                (f1 - 1) as nat,
                (f2 - 1) as nat,
                false,
            );
        }
    }
}

proof fn lemma_elements_fuel_monotone(s: Seq<u8>, i: int, f1: nat, f2: nat, first: bool)
    requires
        f1 <= f2,
        spec_elements(s, i, f1, first) is Some,
    ensures
        spec_elements(s, i, f2, first) == spec_elements(s, i, f1, first),
    decreases f1,
{
    if !(first && s[i] == RBRACKET) {
        lemma_value_fuel_monotone(s, i, (f1 - 1) as nat, (f2 - 1) as nat);
        let k = spec_value(s, i, (f1 - 1) as nat)->Some_0;
        let k1 = spec_skip_ws(s, k);
        if k1 < s.len() && s[k1] == COMMA {
            lemma_elements_fuel_monotone(
                s,
                spec_skip_ws(s, k1 + 1),
                (f1 - 1) as nat,
                (f2 - 1) as nat,
                false,
            );
        }
    }
}

/// The value range of the first member named `key` in the member list
/// starting at `i` (`i` points past any whitespace, at the first key or at
/// the closing brace).  The range runs from the first byte of the value to
/// just past its last byte.  Keys are compared by their content bytes as
/// written, escapes left intact.
pub open spec fn spec_find(s: Seq<u8>, i: int, fuel: nat, key: Seq<u8>) -> Option<(int, int)>
    decreases fuel,
{
    if fuel == 0 {
        None
    } else if i < 0 || i >= s.len() {
        None
    } else if s[i] != QUOTE {
        None
    } else {
        match spec_string_tail(s, i + 1) {
            None => None,
            Some(j) => {
                let j1 = spec_skip_ws(s, j);
                if j1 >= s.len() || s[j1] != COLON {
                    None
                } else {
                    let v = spec_skip_ws(s, j1 + 1);
                    match spec_value(s, v, (fuel - 1) as nat) {
                        None => None,
                        Some(k) => if s.subrange(i + 1, j - 1) == key {
                            Some((v, k))
                        } else {
                            let k1 = spec_skip_ws(s, k);
                            if k1 < s.len() && s[k1] == COMMA {
                                spec_find(s, spec_skip_ws(s, k1 + 1), (fuel - 1) as nat, key)
                            } else {
                                None
                            }
                        },
                    }
                }
            },
        }
    }
}

/// The key bytes of the `job_type` member.
pub open spec fn job_type_key() -> Seq<u8> {
    seq![0x6au8, 0x6fu8, 0x62u8, 0x5fu8, 0x74u8, 0x79u8, 0x70u8, 0x65u8]
}

/// The key bytes of the `payload` member.
pub open spec fn payload_key() -> Seq<u8> {
    seq![0x70u8, 0x61u8, 0x79u8, 0x6cu8, 0x6fu8, 0x61u8, 0x64u8]
}

/// Fuel the decoder hands the grammar: one unit per input byte and one to
/// spare.  Opening a nested value costs fuel and at least one input byte, so
/// the bound leaves room for any nesting an entry of this length can hold.
pub open spec fn entry_fuel(s: Seq<u8>) -> nat {
    s.len() + 1
}

/// What decoding an entry yields: the content bytes of its `job_type` and
/// the raw bytes of its `payload` value, or the precise reason for refusal.
/// This is the definition the executable decoder is proved against.
pub open spec fn spec_decode(s: Seq<u8>) -> Result<(Seq<u8>, Seq<u8>), DecodeError> {
    let i0 = spec_skip_ws(s, 0);
    if i0 >= s.len() || s[i0] != LBRACE {
        Err(DecodeError::Malformed)
    } else {
        match spec_value(s, i0, entry_fuel(s)) {
            None => Err(DecodeError::Malformed),
            Some(j) => if spec_skip_ws(s, j) != s.len() {
                Err(DecodeError::Malformed)
            } else {
                let m0 = spec_skip_ws(s, i0 + 1);
                match spec_find(s, m0, entry_fuel(s), job_type_key()) {
                    None => Err(DecodeError::MissingJobType),
                    Some((a, b)) => if s[a] != QUOTE || b - a < 2 || s.subrange(a + 1, b - 1).len()
                        == 0 {
                        Err(DecodeError::MissingJobType)
                    } else {
                        match spec_find(s, m0, entry_fuel(s), payload_key()) {
                            None => Err(DecodeError::MissingPayload),
                            Some((c, d)) => Ok((s.subrange(a + 1, b - 1), s.subrange(c, d))),
                        }
                    },
                }
            },
        }
    }
}

fn ws(b: u8) -> (r: bool)
    ensures
        r == is_ws(b),
{
    b == 0x20 || b == 0x09 || b == 0x0a || b == 0x0d
}

fn digit(b: u8) -> (r: bool)
    ensures
        r == is_digit(b),
{
    ZERO <= b && b <= NINE
}

fn hex_digit(b: u8) -> (r: bool)
    ensures
        r == is_hex_digit(b),
{
    digit(b) || (0x61 <= b && b <= 0x66) || (0x41 <= b && b <= 0x46)
}

fn simple_escape(b: u8) -> (r: bool)
    ensures
        r == is_simple_escape(b),
{
    b == QUOTE || b == BACKSLASH || b == 0x2f || b == 0x62 || b == 0x66 || b == 0x6e || b == 0x72
        || b == 0x74
}

fn skip_ws(s: &[u8], i: usize) -> (r: usize)
    requires
        i <= s.len(),
    ensures
        r == spec_skip_ws(s@, i as int),
        i <= r <= s.len(),
    decreases s.len() - i,
{
    if i < s.len() && ws(s[i]) {
        skip_ws(s, i + 1)
    } else {
        i
    }
}

fn string_tail(s: &[u8], i: usize) -> (r: Option<usize>)
    requires
        i <= s.len(),
    ensures
        match r {
            Some(j) => spec_string_tail(s@, i as int) == Some(j as int) && i < j <= s.len(),
            None => spec_string_tail(s@, i as int) is None,
        },
    decreases s.len() - i,
{
    if i >= s.len() {
        None
    } else if s[i] == QUOTE {
        Some(i + 1)
    } else if s[i] == BACKSLASH {
        if s.len() - i > 1 && simple_escape(s[i + 1]) {
            string_tail(s, i + 2)
        } else if s.len() - i > 5 && s[i + 1] == 0x75 && hex_digit(s[i + 2]) && hex_digit(s[i + 3])
            && hex_digit(s[i + 4]) && hex_digit(s[i + 5]) {
            string_tail(s, i + 6)
        } else {
            None
        }
    } else if s[i] < 0x20 {
        None
    } else {
        string_tail(s, i + 1)
    }
}

fn skip_digits(s: &[u8], i: usize) -> (r: usize)
    requires
        i <= s.len(),
    ensures
        r == spec_skip_digits(s@, i as int),
        i <= r <= s.len(),
    decreases s.len() - i,
{
    if i < s.len() && digit(s[i]) {
        skip_digits(s, i + 1)
    } else {
        i
    }
}

fn number_end(s: &[u8], i: usize) -> (r: Option<usize>)
    requires
        i <= s.len(),
    ensures
        match r {
            Some(j) => spec_number(s@, i as int) == Some(j as int) && i < j <= s.len(),
            None => spec_number(s@, i as int) is None,
        },
{
    let i1 = if i < s.len() && s[i] == MINUS {
        i + 1
    } else {
        i
    };
    if i1 >= s.len() || !digit(s[i1]) {
        return None;
    }
    let i2 = if s[i1] == ZERO {
        i1 + 1
    } else {
        let d = skip_digits(s, i1 + 1);
        proof {
            assert(spec_skip_digits(s@, i1 as int) == spec_skip_digits(s@, i1 + 1));
        }
        d
    };
    let i3 = if i2 < s.len() && s[i2] == DOT {
        if i2 + 1 < s.len() && digit(s[i2 + 1]) {
            skip_digits(s, i2 + 1)
        } else {
            return None;
        }
    } else {
        i2
    };
    if i3 < s.len() && (s[i3] == 0x65 || s[i3] == 0x45) {
        let i4 = if i3 + 1 < s.len() && (s[i3 + 1] == PLUS || s[i3 + 1] == MINUS) {
            i3 + 2
        } else {
            i3 + 1
        };
        if i4 < s.len() && digit(s[i4]) {
            let d = skip_digits(s, i4 + 1);
            proof {
                assert(spec_skip_digits(s@, i4 as int) == spec_skip_digits(s@, i4 + 1));
            }
            Some(d)
        } else {
            None
        }
    } else {
        Some(i3)
    }
}

/// True when the bytes of `word` stand at `i`.
fn word_at(s: &[u8], i: usize, word: &[u8]) -> (r: bool)
    requires
        i <= s.len(),
    ensures
        r == spec_word_at(s@, i as int, word@),
{
    if s.len() - i < word.len() {
        proof {
            assert(!spec_word_at(s@, i as int, word@));
        }
        return false;
    }
    let mut k: usize = 0;
    while k < word.len()
        invariant
            i + word.len() <= s.len(),
            0 <= k <= word.len(),
            forall|m: int| 0 <= m < k ==> s@[i + m] == word@[m],
        decreases word.len() - k,
    {
        if s[i + k] != word[k] {
            proof {
                assert(s@.subrange(i as int, i + word@.len())[k as int] == s@[i + k]);
            }
            return false;
        }
        k = k + 1;
    }
    proof {
        assert(s@.subrange(i as int, i + word@.len()) =~= word@);
    }
    true
}

fn value_end(s: &[u8], i: usize, fuel: usize) -> (r: Option<usize>)
    requires
        i <= s.len(),
    ensures
        match r {
            Some(j) => spec_value(s@, i as int, fuel as nat) == Some(j as int) && i < j <= s.len(),
            None => spec_value(s@, i as int, fuel as nat) is None,
        },
    decreases fuel,
{
    if fuel == 0 {
        None
    } else if i >= s.len() {
        None
    } else if s[i] == QUOTE {
        string_tail(s, i + 1)
    } else if s[i] == LBRACE {
        members_end(s, skip_ws(s, i + 1), fuel - 1, true)
    } else if s[i] == LBRACKET {
        elements_end(s, skip_ws(s, i + 1), fuel - 1, true)
    } else if s[i] == MINUS || digit(s[i]) {
        number_end(s, i)
    } else {
        let t: [u8; 4] = [0x74, 0x72, 0x75, 0x65];
        let f: [u8; 5] = [0x66, 0x61, 0x6c, 0x73, 0x65];
        let n: [u8; 4] = [0x6e, 0x75, 0x6c, 0x6c];
        proof {
            assert(t@ =~= true_word());
            assert(f@ =~= false_word());
            assert(n@ =~= null_word());
        }
        if word_at(s, i, t.as_slice()) {
            Some(i + 4)
        } else if word_at(s, i, f.as_slice()) {
            Some(i + 5)
        } else if word_at(s, i, n.as_slice()) {
            Some(i + 4)
        } else {
            None
        }
    }
}

fn members_end(s: &[u8], i: usize, fuel: usize, first: bool) -> (r: Option<usize>)
    requires
        i <= s.len(),
    ensures
        match r {
            Some(j) => spec_members(s@, i as int, fuel as nat, first) == Some(j as int) && i < j
                <= s.len(),
            None => spec_members(s@, i as int, fuel as nat, first) is None,
        },
    decreases fuel,
{
    if fuel == 0 {
        None
    } else if i >= s.len() {
        None
    } else if first && s[i] == RBRACE {
        Some(i + 1)
    } else if s[i] != QUOTE {
        None
    } else {
        match string_tail(s, i + 1) {
            None => None,
            Some(j) => {
                let j1 = skip_ws(s, j);
                if j1 >= s.len() || s[j1] != COLON {
                    None
                } else {
                    match value_end(s, skip_ws(s, j1 + 1), fuel - 1) {
                        None => None,
                        Some(k) => {
                            let k1 = skip_ws(s, k);
                            if k1 >= s.len() {
                                None
                            } else if s[k1] == COMMA {
                                members_end(s, skip_ws(s, k1 + 1), fuel - 1, false)
                            } else if s[k1] == RBRACE {
                                Some(k1 + 1)
                            } else {
                                None
                            }
                        },
                    }
                }
            },
        }
    }
}

fn elements_end(s: &[u8], i: usize, fuel: usize, first: bool) -> (r: Option<usize>)
    requires
        i <= s.len(),
    ensures
        match r {
            Some(j) => spec_elements(s@, i as int, fuel as nat, first) == Some(j as int) && i < j
                <= s.len(),
            None => spec_elements(s@, i as int, fuel as nat, first) is None,
        },
    decreases fuel,
{
    if fuel == 0 {
        None
    } else if i >= s.len() {
        None
    } else if first && s[i] == RBRACKET {
        Some(i + 1)
    } else {
        match value_end(s, i, fuel - 1) {
            None => None,
            Some(k) => {
                let k1 = skip_ws(s, k);
                if k1 >= s.len() {
                    None
                } else if s[k1] == COMMA {
                    elements_end(s, skip_ws(s, k1 + 1), fuel - 1, false)
                } else if s[k1] == RBRACKET {
                    Some(k1 + 1)
                } else {
                    None
                }
            },
        }
    }
}

/// Compares the bytes `s[a..b]` with `key`.
fn range_eq(s: &[u8], a: usize, b: usize, key: &[u8]) -> (r: bool)
    requires
        a <= b <= s.len(),
    ensures
        r == (s@.subrange(a as int, b as int) == key@),
{
    if b - a != key.len() {
        proof {
            assert(s@.subrange(a as int, b as int).len() == b - a);
        }
        return false;
    }
    let mut k: usize = 0;
    while k < key.len()
        invariant
            a <= b <= s.len(),
            b - a == key.len(),
            0 <= k <= key.len(),
            forall|m: int| 0 <= m < k ==> s@[a + m] == key@[m],
        decreases key.len() - k,
    {
        if s[a + k] != key[k] {
            proof {
                assert(s@.subrange(a as int, b as int)[k as int] == s@[a + k]);
            }
            return false;
        }
        k = k + 1;
    }
    proof {
        assert(s@.subrange(a as int, b as int) =~= key@);
    }
    true
}

fn find_field(s: &[u8], i: usize, fuel: usize, key: &[u8]) -> (r: Option<(usize, usize)>)
    requires
        i <= s.len(),
    ensures
        match r {
            Some(p) => spec_find(s@, i as int, fuel as nat, key@) == Some(
                (p.0 as int, p.1 as int),
            ) && p.0 < p.1 <= s.len(),
            None => spec_find(s@, i as int, fuel as nat, key@) is None,
        },
    decreases fuel,
{
    if fuel == 0 {
        None
    } else if i >= s.len() {
        None
    } else if s[i] != QUOTE {
        None
    } else {
        match string_tail(s, i + 1) {
            None => None,
            Some(j) => {
                let j1 = skip_ws(s, j);
                if j1 >= s.len() || s[j1] != COLON {
                    None
                } else {
                    let v = skip_ws(s, j1 + 1);
                    match value_end(s, v, fuel - 1) {
                        None => None,
                        Some(k) => if range_eq(s, i + 1, j - 1, key) {
                            Some((v, k))
                        } else {
                            let k1 = skip_ws(s, k);
                            if k1 < s.len() && s[k1] == COMMA {
                                find_field(s, skip_ws(s, k1 + 1), fuel - 1, key)
                            } else {
                                None
                            }
                        },
                    }
                }
            },
        }
    }
}

/// A copy of the bytes `s[a..b]`.
fn copy_range(s: &[u8], a: usize, b: usize) -> (v: Vec<u8>)
    requires
        a <= b <= s.len(),
    ensures
        v@ == s@.subrange(a as int, b as int),
{
    vstd::slice::slice_to_vec(vstd::slice::slice_subrange(s, a, b))
}

impl Job {
    /// The pair a job stands for: its discriminator bytes and its raw
    /// payload bytes.
    pub open spec fn view(&self) -> (Seq<u8>, Seq<u8>) {
        (self.job_type@, self.payload@)
    }
}

/// Decodes one raw queue entry, accepting exactly the entries that
/// `spec_decode` accepts and returning exactly the job or error it names.
/// A malformed entry is refused, never a panic: decode failures stay local
/// to the entry.
pub fn decode_entry(raw: &[u8]) -> (r: Result<Job, DecodeError>)
    requires
        raw.len() < usize::MAX,
    ensures
        match r {
            Ok(job) => spec_decode(raw@) == Ok::<_, DecodeError>(job@),
            Err(e) => spec_decode(raw@) == Err::<(Seq<u8>, Seq<u8>), _>(e),
        },
{
    let i0 = skip_ws(raw, 0);
    if i0 >= raw.len() || raw[i0] != LBRACE {
        return Err(DecodeError::Malformed);
    }
    let fuel = raw.len() + 1;
    let j = match value_end(raw, i0, fuel) {
        None => {
            return Err(DecodeError::Malformed);
        },
        Some(j) => j,
    };
    if skip_ws(raw, j) != raw.len() {
        return Err(DecodeError::Malformed);
    }
    let m0 = skip_ws(raw, i0 + 1);
    let jt_key: [u8; 8] = [0x6a, 0x6f, 0x62, 0x5f, 0x74, 0x79, 0x70, 0x65];
    let pl_key: [u8; 7] = [0x70, 0x61, 0x79, 0x6c, 0x6f, 0x61, 0x64];
    proof {
        assert(jt_key@ =~= job_type_key());
        assert(pl_key@ =~= payload_key());
    }
    let (a, b) = match find_field(raw, m0, fuel, jt_key.as_slice()) {
        None => {
            return Err(DecodeError::MissingJobType);
        },
        Some(p) => p,
    };
    if raw[a] != QUOTE || b - a < 2 {
        return Err(DecodeError::MissingJobType);
    }
    if b - 1 == a + 1 {
        proof {
            assert(raw@.subrange(a + 1, b - 1).len() == 0);
        }
        return Err(DecodeError::MissingJobType);
    }
    let (c, d) = match find_field(raw, m0, fuel, pl_key.as_slice()) {
        None => {
            return Err(DecodeError::MissingPayload);
        },
        Some(p) => p,
    };
    let job = Job { job_type: copy_range(raw, a + 1, b - 1), payload: copy_range(raw, c, d) };
    proof {
        assert(raw@.subrange(a + 1, b - 1).len() == (b - 1) - (a + 1));
    }
    Ok(job)
}

} // verus!
