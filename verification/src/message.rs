use vstd::prelude::*;

use crate::text::{
    append_i32, chars_to_string, dec_digits, is_digit_char, lemma_dec_digits_are_digits,
    lemma_i32_chars_parse, parse_i32_range, push_char, spec_i32_chars, spec_parse_i32, str_eq,
    str_to_chars, IntParseError,
};
use vstd::string::StringExecFns;

verus! {

/// A parametrized control command: a name and an integer value.
#[derive(Debug)]
pub struct Message {
    pub name: String,
    pub value: i32,
}

impl Message {
    /// A command with the given name and value.
    pub fn new(name: &str, value: i32) -> (m: Self)
        ensures
            m.name@ == name@,
            m.value == value,
    {
        Self { name: name.to_owned(), value }
    }

    /// The command name.
    pub fn name(&self) -> (r: &str)
        ensures
            r@ == self.name@,
    {
        self.name.as_str()
    }

    /// The command value.
    pub fn value(&self) -> (r: i32)
        ensures
            r == self.value,
    {
        self.value
    }

    /// The wire form of the command.
    pub fn encode(&self) -> (r: String)
        ensures
            r@ == spec_encode(self.name@, self.value as int),
    {
        let mut r = String::new();
        push_char(&mut r, '[');
        r.append(self.name.as_str());
        push_char(&mut r, ';');
        append_i32(&mut r, self.value);
        push_char(&mut r, ']');
        proof {
            assert(r@ =~= spec_encode(self.name@, self.value as int));
        }
        r
    }
}

impl PartialEq for Message {
    /// Two commands are equal when name and value agree.
    fn eq(&self, other: &Self) -> (r: bool) {
        str_eq(self.name.as_str(), other.name.as_str()) && self.value == other.value
    }
}

impl vstd::std_specs::cmp::PartialEqSpecImpl for Message {
    open spec fn obeys_eq_spec() -> bool {
        true
    }

    open spec fn eq_spec(&self, other: &Self) -> bool {
        self.name@ == other.name@ && self.value == other.value
    }
}

/// The wire form `"[name;value]"`.
pub open spec fn spec_encode(name: Seq<char>, value: int) -> Seq<char> {
    seq!['['] + name + seq![';'] + spec_i32_chars(value) + seq![']']
}

/// No newline stands in `s` at a position of `[a, b)`.
pub open spec fn no_newline(s: Seq<char>, a: int, b: int) -> bool {
    forall|m: int| a <= m < b ==> s[m] != '\n'
}

/// A closing bracket at `k` ends the value that starts after the separator
/// at `j`, with no newline in between.
pub open spec fn closer_at(s: Seq<char>, j: int, k: int) -> bool {
    j < k < s.len() && s[k] == ']' && no_newline(s, j + 1, k)
}

/// A separator at `j` follows the opening bracket at `i` with no newline in
/// between, and some closing bracket ends the group.
pub open spec fn sep_closes(s: Seq<char>, i: int, j: int) -> bool {
    i < j < s.len() && s[j] == ';' && no_newline(s, i + 1, j) && (exists|k: int|
        closer_at(s, j, k))
}

/// A bracketed `name;value` group opens at `i`.
pub open spec fn group_at(s: Seq<char>, i: int) -> bool {
    0 <= i < s.len() && s[i] == '[' && (exists|j: int| sep_closes(s, i, j))
}

/// Some bracketed `name;value` group occurs in `s`.
pub open spec fn has_group(s: Seq<char>) -> bool {
    exists|i: int| group_at(s, i)
}

/// The group that decoding selects: the leftmost opening bracket that some
/// group completes, the earliest separator that a closing bracket follows,
/// and the earliest such closing bracket.
pub open spec fn selected_group(s: Seq<char>, i: int, j: int, k: int) -> bool {
    &&& 0 <= i < s.len()
    &&& s[i] == '['
    &&& sep_closes(s, i, j)
    &&& closer_at(s, j, k)
    &&& forall|i2: int| 0 <= i2 < i ==> !group_at(s, i2)
    &&& forall|j2: int| i < j2 < j ==> !sep_closes(s, i, j2)
    &&& forall|k2: int| j < k2 < k ==> !closer_at(s, j, k2)
}

/// The encoded form of a command whose name is non-empty and free of
/// separators and newlines decodes to the same name and value: the whole
/// encoded text is the selected group, its name part is `name`, and its
/// value part parses back to `value`.
pub proof fn lemma_encode_decode(name: Seq<char>, value: i32)
    requires
        name.len() > 0,
        forall|i: int| 0 <= i < name.len() ==> #[trigger] name[i] != ';' && name[i] != '\n',
    ensures
        ({
            let s = spec_encode(name, value as int);
            let j = name.len() as int + 1;
            let k = s.len() as int - 1;
            &&& selected_group(s, 0, j, k)
            &&& j != 1
            &&& s.subrange(1, j) == name
            &&& spec_parse_i32(s.subrange(j + 1, k)) == Ok::<i32, IntParseError>(value)
        }),
{
    let s = spec_encode(name, value as int);
    let digits = spec_i32_chars(value as int);
    let j = name.len() as int + 1;
    let k = s.len() as int - 1;
    lemma_dec_digits_are_digits(if value >= 0 {
        value as nat
    } else {
        (-(value as int)) as nat
    });
    assert(s.len() == name.len() + digits.len() + 3);
    assert(s[0] == '[');
    assert(s[j] == ';');
    assert(s[k] == ']');
    assert forall|m: int| 1 <= m < j implies s[m] == name[m - 1] by {}
    assert forall|m: int| j + 1 <= m < k implies s[m] == digits[m - j - 1] by {}
    assert forall|m: int| 0 <= m < digits.len() implies digits[m] != ']' && digits[m] != '\n'
        && digits[m] != ';' by {
        if value >= 0 {
            assert(is_digit_char(digits[m]));
        } else {
            if m == 0 {
                assert(digits[m] == '-');
            } else {
                assert(digits[m] == dec_digits((-(value as int)) as nat)[m - 1]);
                assert(is_digit_char(digits[m]));
            }
        }
    }
    assert(no_newline(s, 1, j));
    assert(no_newline(s, j + 1, k));
    assert(closer_at(s, j, k));
    assert(sep_closes(s, 0, j));
    assert forall|j2: int| 0 < j2 < j implies !sep_closes(s, 0, j2) by {
        assert(s[j2] == name[j2 - 1]);
        assert(s[j2] != ';');
    }
    assert forall|k2: int| j < k2 < k implies !closer_at(s, j, k2) by {
        assert(s[k2] == digits[k2 - j - 1]);
        assert(s[k2] != ']');
    }
    assert(s.subrange(1, j) =~= name);
    assert(s.subrange(j + 1, k) =~= digits);
    lemma_i32_chars_parse(value);
}

/// No group occurs in empty text, nor in text that misses the opening
/// bracket, the closing bracket, or the separator anywhere.
pub proof fn lemma_no_group(s: Seq<char>)
    requires
        s.len() == 0 || (forall|i: int| 0 <= i < s.len() ==> s[i] != '[') || (forall|i: int|
            0 <= i < s.len() ==> s[i] != ']') || (forall|i: int| 0 <= i < s.len() ==> s[i] != ';'),
    ensures
        !has_group(s),
{
    assert forall|i: int| !group_at(s, i) by {
        if group_at(s, i) {
            let j = choose|j: int| sep_closes(s, i, j);
            assert(s[j] == ';');
            let k = choose|k: int| closer_at(s, j, k);
            assert(s[k] == ']');
            assert(s[i] == '[');
        }
    }
}

/// At most one group is selected.
pub proof fn lemma_selected_unique(s: Seq<char>, i: int, j: int, k: int, i2: int, j2: int, k2: int)
    requires
        selected_group(s, i, j, k),
        selected_group(s, i2, j2, k2),
    ensures
        i == i2 && j == j2 && k == k2,
{
    assert(group_at(s, i));
    assert(group_at(s, i2));
    assert(i == i2);
    assert(j == j2);
    assert(k == k2);
}

fn find_closer(v: &Vec<char>, j: usize) -> (r: Option<usize>)
    requires
        j < v@.len(),
    ensures
        match r {
            None => forall|k2: int| !closer_at(v@, j as int, k2),
            Some(k) => j < k < v@.len() && closer_at(v@, j as int, k as int) && forall|k2: int|
                j < k2 < k ==> !closer_at(v@, j as int, k2),
        },
{
    let n = v.len();
    let mut k: usize = j + 1;
    while k < n && v[k] != '\n'
        invariant
            j + 1 <= k <= n == v@.len(),
            no_newline(v@, j + 1, k as int),
            forall|k2: int| j < k2 < k ==> !closer_at(v@, j as int, k2),
        decreases n - k,
    {
        if v[k] == ']' {
            return Some(k);
        }
        k = k + 1;
    }
    proof {
        assert forall|k2: int| !closer_at(v@, j as int, k2) by {
            if j < k2 < v@.len() {
                if k2 < k {
                } else if k2 == k {
                    assert(v@[k as int] == '\n');
                } else {
                    if (k as int) < v@.len() {
                        assert(v@[k as int] == '\n');
                        assert(!no_newline(v@, j + 1, k2));
                    }
                }
            }
        }
    }
    None
}

fn find_sep(v: &Vec<char>, i: usize) -> (r: Option<(usize, usize)>)
    requires
        i < v@.len(),
    ensures
        match r {
            None => forall|j2: int| !sep_closes(v@, i as int, j2),
            Some((j, k)) => {
                &&& i < j < k < v@.len()
                &&& sep_closes(v@, i as int, j as int)
                &&& closer_at(v@, j as int, k as int)
                &&& forall|j2: int| i < j2 < j ==> !sep_closes(v@, i as int, j2)
                &&& forall|k2: int| j < k2 < k ==> !closer_at(v@, j as int, k2)
            },
        },
{
    let n = v.len();
    let mut j: usize = i + 1;
    while j < n && v[j] != '\n'
        invariant
            i + 1 <= j <= n == v@.len(),
            i < n,
            no_newline(v@, i + 1, j as int),
            forall|j2: int| i < j2 < j ==> !sep_closes(v@, i as int, j2),
        decreases n - j,
    {
        if v[j] == ';' {
            match find_closer(v, j) {
                Some(k) => {
                    return Some((j, k));
                },
                None => {
                    proof {
                        assert(!sep_closes(v@, i as int, j as int));
                    }
                },
            }
        }
        j = j + 1;
    }
    proof {
        assert forall|j2: int| !sep_closes(v@, i as int, j2) by {
            if i < j2 < v@.len() {
                if j2 < j {
                } else if j2 == j {
                    assert(v@[j as int] == '\n');
                } else {
                    if (j as int) < v@.len() {
                        assert(v@[j as int] == '\n');
                        assert(!no_newline(v@, i + 1, j2));
                    }
                }
            }
        }
    }
    None
}

fn find_group(v: &Vec<char>) -> (r: Option<(usize, usize, usize)>)
    ensures
        match r {
            None => !has_group(v@),
            Some((i, j, k)) => selected_group(v@, i as int, j as int, k as int) && i < j < k
                < v@.len(),
        },
{
    let n = v.len();
    let mut i: usize = 0;
    while i < n
        invariant
            0 <= i <= n == v@.len(),
            forall|i2: int| 0 <= i2 < i ==> !group_at(v@, i2),
        decreases n - i,
    {
        if v[i] == '[' {
            match find_sep(v, i) {
                Some((j, k)) => {
                    return Some((i, j, k));
                },
                None => {
                    proof {
                        assert(!group_at(v@, i as int));
                    }
                },
            }
        } else {
            proof {
                assert(!group_at(v@, i as int));
            }
        }
        i = i + 1;
    }
    None
}

/// Why a piece of text failed to decode as a command.
#[derive(Debug)]
pub enum DecodeError {
    /// No bracketed `name;value` group occurs in the input.
    NoMatch { input: String },
    /// The selected group's name is empty.
    MissingName { full: String, value: String },
    /// The selected group's value is not a valid integer.
    BadValue { kind: IntParseError },
}

impl DecodeError {
    /// The error rendered as text.
    pub open spec fn spec_message(self) -> Seq<char> {
        match self {
            DecodeError::NoMatch { input } => "unable to decode message: "@ + input@,
            DecodeError::MissingName { full, value } => "message name is missing. msg == (\""@
                + full@ + "\", [\"\", \""@ + value@ + "\"])"@,
            DecodeError::BadValue { kind } => match kind {
                IntParseError::Empty => "cannot parse integer from empty string"@,
                IntParseError::InvalidDigit => "invalid digit found in string"@,
                IntParseError::PosOverflow => "number too large to fit in target type"@,
                IntParseError::NegOverflow => "number too small to fit in target type"@,
            },
        }
    }

    /// The error rendered as text.
    pub fn message(&self) -> (r: String)
        ensures
            r@ == self.spec_message(),
    {
        match self {
            DecodeError::NoMatch { input } => {
                let mut r = "unable to decode message: ".to_owned();
                r.append(input.as_str());
                r
            },
            DecodeError::MissingName { full, value } => {
                let mut r = "message name is missing. msg == (\"".to_owned();
                r.append(full.as_str());
                r.append("\", [\"\", \"");
                r.append(value.as_str());
                r.append("\"])");
                proof {
                    assert(r@ =~= self.spec_message());
                }
                r
            },
            DecodeError::BadValue { kind } => match kind {
                IntParseError::Empty => "cannot parse integer from empty string".to_owned(),
                IntParseError::InvalidDigit => "invalid digit found in string".to_owned(),
                IntParseError::PosOverflow => "number too large to fit in target type".to_owned(),
                IntParseError::NegOverflow => "number too small to fit in target type".to_owned(),
            },
        }
    }
}

impl Message {
    /// Decodes the selected `[name;value]` group of the input: the error
    /// names the failure when no group occurs, the name is empty, or the
    /// value is not a valid integer.
    pub fn decode(input: &str) -> (r: Result<Self, DecodeError>)
        ensures
            (exists|i: int, j: int, k: int| selected_group(input@, i, j, k)) == has_group(input@),
            !has_group(input@) ==> (r matches Err(DecodeError::NoMatch { input: raw })
                && raw@ == input@),
            forall|i: int, j: int, k: int|
                selected_group(input@, i, j, k) ==> match spec_parse_i32(
                    input@.subrange(j + 1, k),
                ) {
                    Ok(val) => if j == i + 1 {
                        r matches Err(DecodeError::MissingName { full, value })
                            && full@ == input@.subrange(i, k + 1) && value@ == input@.subrange(
                            j + 1,
                            k,
                        )
                    } else {
                        r matches Ok(m) && m.name@ == input@.subrange(i + 1, j) && m.value == val
                    },
                    Err(e) => if j == i + 1 {
                        r matches Err(DecodeError::MissingName { full, value })
                            && full@ == input@.subrange(i, k + 1) && value@ == input@.subrange(
                            j + 1,
                            k,
                        )
                    } else {
                        r matches Err(DecodeError::BadValue { kind }) && kind == e
                    },
                },
    {
        let v = str_to_chars(input);
        let n = v.len();
        match find_group(&v) {
            None => {
                proof {
                    assert forall|i: int, j: int, k: int|
                        !selected_group(input@, i, j, k) by {
                        if selected_group(input@, i, j, k) {
                            assert(group_at(input@, i));
                        }
                    }
                }
                Err(DecodeError::NoMatch { input: input.to_owned() })
            },
            Some((i, j, k)) => {
                proof {
                    assert(group_at(input@, i as int));
                    assert forall|i2: int, j2: int, k2: int|
                        selected_group(input@, i2, j2, k2) implies i2 == i && j2 == j && k2
                        == k by {
                        lemma_selected_unique(input@, i as int, j as int, k as int, i2, j2, k2);
                    }
                }
                if j == i + 1 {
                    let full = chars_to_string(&v, i, k + 1);
                    let value = chars_to_string(&v, j + 1, k);
                    Err(DecodeError::MissingName { full, value })
                } else {
                    match parse_i32_range(&v, j + 1, k) {
                        Ok(val) => Ok(
                            Message { name: chars_to_string(&v, i + 1, j), value: val },
                        ),
                        Err(kind) => Err(DecodeError::BadValue { kind }),
                    }
                }
            },
        }
    }
}

} // verus!
