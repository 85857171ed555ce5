//! Text: decimal numerals, searching and splitting.

use vstd::prelude::*;
use vstd::string::StrSliceExecFns;
use vstd::string::StringExecFns;

verus! {

/// The decimal digit for a value below ten.
pub open spec fn digit(d: int) -> char {
    (48 + d) as char
}

/// Is this character one of `0` to `9`?
pub open spec fn is_digit(c: char) -> bool {
    48 <= c as int <= 57
}

/// The decimal numeral of a number, without leading zeros.
pub open spec fn numeral(n: nat) -> Seq<char>
    decreases n,
{
    if n < 10 {
        seq![digit(n as int)]
    } else {
        numeral(n / 10).push(digit((n % 10) as int))
    }
}

/// Are all characters digits?
pub open spec fn all_digits(s: Seq<char>) -> bool {
    forall|i: int| 0 <= i < s.len() ==> is_digit(#[trigger] s[i])
}

/// The number that a run of digits stands for.
pub open spec fn digits_value(s: Seq<char>) -> int
    decreases s.len(),
{
    if s.len() == 0 {
        0
    } else {
        10 * digits_value(s.drop_last()) + (s.last() as int - 48)
    }
}

/// The number below `2^64` that a text names: digits, at least one, that may follow a plus sign.
pub open spec fn unsigned(s: Seq<char>) -> Option<u64> {
    let body = if s.len() > 0 && s[0] == '+' {
        s.skip(1)
    } else {
        s
    };
    if body.len() > 0 && all_digits(body) && digits_value(body) <= u64::MAX {
        Some(digits_value(body) as u64)
    } else {
        None
    }
}

/// Does `key` stand in `s` at position `at`?
pub open spec fn occurs_at(s: Seq<char>, key: Seq<char>, at: int) -> bool {
    0 <= at && at + key.len() <= s.len() && s.subrange(at, at + key.len()) == key
}

/// The first position at or after `from` where `key` stands in `s`.
pub open spec fn find_from(s: Seq<char>, key: Seq<char>, from: int) -> Option<int>
    decreases s.len() + 1 - from,
{
    if from < 0 || from + key.len() > s.len() {
        None
    } else if occurs_at(s, key, from) {
        Some(from)
    } else {
        find_from(s, key, from + 1)
    }
}

/// The longest run of digits that starts at `from`.
pub open spec fn digit_run(s: Seq<char>, from: int) -> Seq<char>
    decreases s.len() - from,
{
    if 0 <= from < s.len() && is_digit(s[from]) {
        seq![s[from]] + digit_run(s, from + 1)
    } else {
        Seq::empty()
    }
}

/// Does `s` begin with `prefix`?
pub open spec fn begins_with(s: Seq<char>, prefix: Seq<char>) -> bool {
    occurs_at(s, prefix, 0)
}

/// The pieces of `s` from `from` on, where the piece under way began at `start` and every `sep`
/// ends a piece.
pub open spec fn pieces(s: Seq<char>, sep: char, start: int, from: int) -> Seq<Seq<char>>
    decreases s.len() - from,
{
    if from >= s.len() {
        seq![s.subrange(start, s.len() as int)]
    } else if s[from] == sep {
        seq![s.subrange(start, from)] + pieces(s, sep, from + 1, from + 1)
    } else {
        pieces(s, sep, start, from + 1)
    }
}

/// The pieces into which the separators cut `s`. There is one piece more than there are separators.
pub open spec fn split(s: Seq<char>, sep: char) -> Seq<Seq<char>> {
    pieces(s, sep, 0, 0)
}

/// Does the character occur in `s`?
pub open spec fn has_char(s: Seq<char>, c: char) -> bool {
    exists|i: int| 0 <= i < s.len() && s[i] == c
}

/// The characters of the given strings, one after the other.
pub open spec fn texts(v: Seq<String>) -> Seq<Seq<char>> {
    v.map_values(|s: String| s@)
}

/// Are two texts the same?
pub fn same(a: &str, b: &str) -> (r: bool)
    ensures
        r == (a@ == b@),
{
    let left: String = a.to_owned();
    let right: String = b.to_owned();
    left == right
}

/// The characters of a text.
pub fn chars_of(s: &str) -> (r: Vec<char>)
    ensures
        r@ == s@,
{
    let mut out: Vec<char> = Vec::new();
    for c in it: s.chars()
        invariant
            out@ == it.seq().take(it.index()),
            it.seq() == s@,
    {
        proof {
            assert(it.seq().take(it.index() + 1) =~= it.seq().take(it.index()).push(it.seq()[it.index()]));
        }
        out.push(c);
    }
    proof {
        assert(s@.take(s@.len() as int) =~= s@);
    }
    out
}

fn digit_text(d: u64) -> (r: &'static str)
    requires
        d < 10,
    ensures
        r@ == seq![digit(d as int)],
{
    proof {
        reveal_strlit("0");
        reveal_strlit("1");
        reveal_strlit("2");
        reveal_strlit("3");
        reveal_strlit("4");
        reveal_strlit("5");
        reveal_strlit("6");
        reveal_strlit("7");
        reveal_strlit("8");
        reveal_strlit("9");
    }
    let r: &'static str = match d {
        0 => "0",
        1 => "1",
        2 => "2",
        3 => "3",
        4 => "4",
        5 => "5",
        6 => "6",
        7 => "7",
        8 => "8",
        _ => "9",
    };
    assert(r@ =~= seq![digit(d as int)]);
    r
}

/// The decimal numeral of a number.
pub fn decimal(n: u64) -> (r: String)
    ensures
        r@ == numeral(n as nat),
    decreases n,
{
    if n < 10 {
        digit_text(n).to_owned()
    } else {
        let mut s: String = decimal(n / 10);
        s.append(digit_text(n % 10));
        assert(s@ =~= numeral(n as nat));
        s
    }
}

fn is_digit_char(c: char) -> (r: bool)
    ensures
        r == is_digit(c),
{
    '0' <= c && c <= '9'
}

proof fn lemma_digits_value_grows(s: Seq<char>)
    requires
        all_digits(s),
    ensures
        digits_value(s) >= 0,
        forall|i: int| 0 <= i <= s.len() ==> digits_value(#[trigger] s.take(i)) <= digits_value(s),
    decreases s.len(),
{
    if s.len() > 0 {
        lemma_digits_value_grows(s.drop_last());
        assert forall|i: int| 0 <= i <= s.len() implies digits_value(#[trigger] s.take(i)) <= digits_value(s) by {
            if i == s.len() {
                assert(s.take(i) =~= s);
            } else {
                assert(s.drop_last().take(i) =~= s.take(i));
            }
        }
    } else {
        assert forall|i: int| 0 <= i <= s.len() implies digits_value(#[trigger] s.take(i)) <= digits_value(s) by {
            assert(s.take(i) =~= s);
        }
    }
}

/// The number that the characters from `from` on name: one or more digits and nothing else.
fn digits_from(chars: &Vec<char>, from: usize) -> (r: Option<u64>)
    requires
        from <= chars@.len(),
    ensures
        ({
            let body = chars@.skip(from as int);
            r == if body.len() > 0 && all_digits(body) && digits_value(body) <= u64::MAX {
                Some(digits_value(body) as u64)
            } else {
                None
            }
        }),
{
    let ghost body = chars@.skip(from as int);
    if from == chars.len() {
        return None;
    }
    let mut value: u64 = 0;
    let mut fits: bool = true;
    let mut i: usize = from;
    while i < chars.len()
        invariant
            from <= i <= chars@.len(),
            body == chars@.skip(from as int),
            all_digits(body.take(i - from)),
            fits <==> digits_value(body.take(i - from)) <= u64::MAX,
            fits ==> value == digits_value(body.take(i - from)),
        decreases chars@.len() - i,
    {
        let c: char = chars[i];
        let ghost before = body.take(i - from);
        let ghost after = body.take(i + 1 - from);
        proof {
            assert(after =~= before.push(c));
            assert(after.drop_last() =~= before);
            assert(body[i - from] == c);
        }
        if !is_digit_char(c) {
            proof {
                assert(!is_digit(body[i - from]));
            }
            return None;
        }
        let d: u64 = c as u64 - 48;
        proof {
            assert(all_digits(after)) by {
                assert forall|j: int| 0 <= j < after.len() implies is_digit(#[trigger] after[j]) by {
                    if j < before.len() {
                        assert(after[j] == before[j]);
                    }
                }
            }
            lemma_digits_value_grows(after);
            assert(digits_value(before) <= digits_value(after)) by {
                assert(after.take(before.len() as int) =~= before);
            }
        }
        if fits {
            match value.checked_mul(10) {
                None => {
                    fits = false;
                },
                Some(tenfold) => {
                    match tenfold.checked_add(d) {
                        None => {
                            fits = false;
                        },
                        Some(sum) => {
                            value = sum;
                        },
                    }
                },
            }
        }
        i += 1;
    }
    proof {
        assert(body.take(i - from) =~= body);
    }
    if fits {
        Some(value)
    } else {
        None
    }
}

/// The number below `2^64` that a text names: digits, at least one, that may follow a plus sign.
pub fn parse_unsigned(s: &str) -> (r: Option<u64>)
    ensures
        r == unsigned(s@),
{
    let chars: Vec<char> = chars_of(s);
    if chars.len() > 0 && chars[0] == '+' {
        digits_from(&chars, 1)
    } else {
        proof {
            assert(chars@.skip(0) =~= chars@);
        }
        digits_from(&chars, 0)
    }
}

/// The numeral of a number holds only digits and stands for that number.
pub proof fn numeral_names_its_number(n: nat)
    ensures
        numeral(n).len() > 0,
        all_digits(numeral(n)),
        digits_value(numeral(n)) == n,
    decreases n,
{
    reveal_with_fuel(digits_value, 2);
    if n < 10 {
        assert(numeral(n).drop_last() =~= Seq::<char>::empty());
    } else {
        numeral_names_its_number(n / 10);
        let head = numeral(n / 10);
        assert(numeral(n).drop_last() =~= head);
        assert forall|i: int| 0 <= i < numeral(n).len() implies is_digit(#[trigger] numeral(n)[i]) by {
            if i < head.len() {
                assert(is_digit(head[i]));
            }
        }
    }
}

/// Writing a number and reading it back gives the number.
pub proof fn decimal_round_trip(n: u64)
    ensures
        unsigned(numeral(n as nat)) == Some(n),
{
    numeral_names_its_number(n as nat);
    assert(is_digit(numeral(n as nat)[0]));
}

fn matches_at(s: &Vec<char>, key: &Vec<char>, at: usize) -> (r: bool)
    ensures
        r == occurs_at(s@, key@, at as int),
{
    if key.len() > s.len() || at > s.len() - key.len() {
        return false;
    }
    let n: usize = s.len();
    let mut i: usize = 0;
    while i < key.len()
        invariant
            0 <= i <= key@.len(),
            n == s@.len(),
            at + key@.len() <= n,
            forall|j: int| 0 <= j < i ==> s@[at + j] == #[trigger] key@[j],
        decreases key@.len() - i,
    {
        if s[at + i] != key[i] {
            proof {
                assert(s@.subrange(at as int, at + key@.len())[i as int] != key@[i as int]);
            }
            return false;
        }
        i += 1;
    }
    proof {
        assert(s@.subrange(at as int, at + key@.len()) =~= key@);
    }
    true
}

proof fn lemma_find_skips(s: Seq<char>, key: Seq<char>, from: int, to: int)
    requires
        0 <= from <= to,
        forall|j: int| from <= j < to ==> !occurs_at(s, key, j),
    ensures
        find_from(s, key, from) == find_from(s, key, to),
    decreases to - from,
{
    if from < to {
        if from + key.len() <= s.len() {
            assert(!occurs_at(s, key, from));
            lemma_find_skips(s, key, from + 1, to);
        }
    }
}

/// What is found is an occurrence, and none comes before it. Where nothing is found there is none.
pub proof fn found_is_first(s: Seq<char>, key: Seq<char>, from: int)
    requires
        0 <= from,
    ensures
        find_from(s, key, from) matches Some(at) ==> from <= at && occurs_at(s, key, at) && forall|j: int|
            from <= j < at ==> !occurs_at(s, key, j),
        find_from(s, key, from) is None ==> forall|j: int| from <= j ==> !occurs_at(s, key, j),
    decreases s.len() + 1 - from,
{
    if from + key.len() <= s.len() && !occurs_at(s, key, from) {
        found_is_first(s, key, from + 1);
    }
}

/// The first position where `key` stands in `s`.
pub(crate) fn find(s: &Vec<char>, key: &Vec<char>) -> (r: Option<usize>)
    ensures
        match r {
            Some(at) => find_from(s@, key@, 0) == Some(at as int),
            None => find_from(s@, key@, 0) is None,
        },
{
    let mut at: usize = 0;
    while at < s.len()
        invariant
            0 <= at <= s@.len(),
            forall|j: int| 0 <= j < at ==> !occurs_at(s@, key@, j),
        decreases s@.len() - at,
    {
        if matches_at(s, key, at) {
            proof {
                lemma_find_skips(s@, key@, 0, at as int);
            }
            return Some(at);
        }
        at += 1;
    }
    if matches_at(s, key, at) {
        proof {
            lemma_find_skips(s@, key@, 0, at as int);
        }
        Some(at)
    } else {
        proof {
            lemma_find_skips(s@, key@, 0, at + 1);
        }
        None
    }
}

proof fn lemma_digit_run(s: Seq<char>, from: int, to: int)
    requires
        0 <= from <= to <= s.len(),
        forall|j: int| from <= j < to ==> is_digit(#[trigger] s[j]),
        to == s.len() || !is_digit(s[to]),
    ensures
        digit_run(s, from) == s.subrange(from, to),
    decreases to - from,
{
    if from < to {
        lemma_digit_run(s, from + 1, to);
        assert(seq![s[from]] + s.subrange(from + 1, to) =~= s.subrange(from, to));
    } else {
        assert(s.subrange(from, to) =~= Seq::<char>::empty());
    }
}

/// The number below `2^64` that the digits from `from` on name.
pub(crate) fn leading_number(s: &Vec<char>, from: usize) -> (r: Option<u64>)
    requires
        from <= s@.len(),
    ensures
        r == unsigned(digit_run(s@, from as int)),
{
    let mut run: Vec<char> = Vec::new();
    let mut i: usize = from;
    while i < s.len() && is_digit_char(s[i])
        invariant
            from <= i <= s@.len(),
            run@ == s@.subrange(from as int, i as int),
            forall|j: int| from <= j < i ==> is_digit(#[trigger] s@[j]),
        decreases s@.len() - i,
    {
        run.push(s[i]);
        proof {
            assert(s@.subrange(from as int, i + 1) =~= s@.subrange(from as int, i as int).push(s@[i as int]));
        }
        i += 1;
    }
    proof {
        lemma_digit_run(s@, from as int, i as int);
        assert(run@.skip(0) =~= run@);
        if run@.len() > 0 {
            assert(is_digit(run@[0])) by {
                assert(run@[0] == s@[from as int]);
            }
        }
    }
    digits_from(&run, 0)
}

/// Does `s` begin with `prefix`?
pub(crate) fn starts_with(s: &str, prefix: &str) -> (r: bool)
    ensures
        r == begins_with(s@, prefix@),
{
    let text: Vec<char> = chars_of(s);
    let key: Vec<char> = chars_of(prefix);
    matches_at(&text, &key, 0)
}

/// The pieces into which the separators cut `s`.
pub(crate) fn split_text(s: &str, sep: char) -> (r: Vec<String>)
    ensures
        texts(r@) == split(s@, sep),
{
    let chars: Vec<char> = chars_of(s);
    let mut out: Vec<String> = Vec::new();
    let mut start: usize = 0;
    let mut i: usize = 0;
    while i < chars.len()
        invariant
            chars@ == s@,
            start <= i <= chars@.len(),
            texts(out@) + pieces(s@, sep, start as int, i as int) == split(s@, sep),
        decreases chars@.len() - i,
    {
        if chars[i] == sep {
            let piece: String = s.substring_char(start, i).to_owned();
            let ghost done = texts(out@);
            let ghost rest = pieces(s@, sep, i + 1, i + 1);
            out.push(piece);
            proof {
                assert(texts(out@) =~= done.push(piece@));
                assert(done + (seq![piece@] + rest) =~= done.push(piece@) + rest);
            }
            start = i + 1;
        }
        i += 1;
    }
    let last: String = s.substring_char(start, chars.len()).to_owned();
    let ghost done = texts(out@);
    out.push(last);
    proof {
        assert(texts(out@) =~= done + seq![last@]);
    }
    out
}

proof fn lemma_pieces_skip(s: Seq<char>, sep: char, start: int, from: int, to: int)
    requires
        0 <= start <= from <= to <= s.len(),
        forall|j: int| from <= j < to ==> s[j] != sep,
    ensures
        pieces(s, sep, start, from) == pieces(s, sep, start, to),
    decreases to - from,
{
    if from < to {
        lemma_pieces_skip(s, sep, start, from + 1, to);
    }
}

/// Three texts without the separator, joined by it, are cut into those three texts.
pub proof fn split_of_three(a: Seq<char>, b: Seq<char>, c: Seq<char>, sep: char)
    requires
        !has_char(a, sep),
        !has_char(b, sep),
        !has_char(c, sep),
    ensures
        split(a.push(sep) + b.push(sep) + c, sep) == seq![a, b, c],
{
    let s = a.push(sep) + b.push(sep) + c;
    let p = a.len() as int;
    let q = p + 1 + b.len();
    assert forall|j: int| 0 <= j < p implies s[j] != sep by {
        assert(s[j] == a[j]);
    }
    lemma_pieces_skip(s, sep, 0, 0, p);
    assert(s[p] == sep);
    assert(s.subrange(0, p) =~= a);
    assert forall|j: int| p + 1 <= j < q implies s[j] != sep by {
        assert(s[j] == b[j - p - 1]);
    }
    lemma_pieces_skip(s, sep, p + 1, p + 1, q);
    assert(s[q] == sep);
    assert(s.subrange(p + 1, q) =~= b);
    assert forall|j: int| q + 1 <= j < s.len() implies s[j] != sep by {
        assert(s[j] == c[j - q - 1]);
    }
    lemma_pieces_skip(s, sep, q + 1, q + 1, s.len() as int);
    assert(s.subrange(q + 1, s.len() as int) =~= c);
    assert(seq![a] + (seq![b] + seq![c]) =~= seq![a, b, c]);
}

} // verus!
