//! Text rules used across the library: trimming, defaults, comparisons,
//! decimal rendering and CSV field escaping.

use vstd::prelude::*;

verus! {

/// The Unicode `White_Space` property, which `char::is_whitespace` documents
/// as its definition.
pub open spec fn is_white_space(c: char) -> bool {
    let x = c as u32;
    ||| 0x9 <= x <= 0xd
    ||| x == 0x20
    ||| x == 0x85
    ||| x == 0xa0
    ||| x == 0x1680
    ||| 0x2000 <= x <= 0x200a
    ||| x == 0x2028
    ||| x == 0x2029
    ||| x == 0x202f
    ||| x == 0x205f
    ||| x == 0x3000
}

/// `char::is_whitespace`: true exactly on the characters with the Unicode
/// `White_Space` property, as the std documentation defines it.
#[verifier::external_body]
fn char_is_whitespace(c: char) -> (r: bool)
    ensures
        r == is_white_space(c),
{
    c.is_whitespace()
}

/// `s` without its leading white space.
pub open spec fn trim_start(s: Seq<char>) -> Seq<char>
    decreases s.len(),
{
    if s.len() > 0 && is_white_space(s[0]) {
        trim_start(s.drop_first())
    } else {
        s
    }
}

/// `s` without its trailing white space.
pub open spec fn trim_end(s: Seq<char>) -> Seq<char>
    decreases s.len(),
{
    if s.len() > 0 && is_white_space(s.last()) {
        trim_end(s.drop_last())
    } else {
        s
    }
}

/// `s` without leading and trailing white space.
pub open spec fn trimmed(s: Seq<char>) -> Seq<char> {
    trim_end(trim_start(s))
}

/// What `trim_start` leaves does not begin with white space.
pub proof fn lemma_trim_start_clean(s: Seq<char>)
    ensures
        trim_start(s).len() == 0 || !is_white_space(trim_start(s)[0]),
    decreases s.len(),
{
    if s.len() > 0 && is_white_space(s[0]) {
        lemma_trim_start_clean(s.drop_first());
    }
}

/// What `trim_end` leaves does not end with white space, and begins as `s`
/// does when `s` does not begin with white space.
pub proof fn lemma_trim_end_clean(s: Seq<char>)
    ensures
        trim_end(s).len() == 0 || !is_white_space(trim_end(s).last()),
        trim_end(s).len() <= s.len(),
        forall|i: int| 0 <= i < trim_end(s).len() ==> trim_end(s)[i] == s[i],
        s.len() > 0 && !is_white_space(s[0]) ==> trim_end(s).len() > 0,
    decreases s.len(),
{
    if s.len() > 0 && is_white_space(s.last()) {
        lemma_trim_end_clean(s.drop_last());
        assert forall|i: int| 0 <= i < trim_end(s).len() implies trim_end(s)[i] == s[i] by {
            assert(s.drop_last()[i] == s[i]);
        }
        if !is_white_space(s[0]) {
            assert(s.len() > 1);
            assert(s.drop_last()[0] == s[0]);
        }
    }
}

/// Trimming twice trims no more than trimming once.
pub proof fn lemma_trimmed_idempotent(s: Seq<char>)
    ensures
        trimmed(trimmed(s)) == trimmed(s),
{
    let a = trim_start(s);
    let t = trim_end(a);
    lemma_trim_start_clean(s);
    lemma_trim_end_clean(a);
    if t.len() > 0 {
        assert(t[0] == a[0]);
        assert(trim_start(t) == t);
        lemma_trim_end_clean(t);
        assert(trim_end(t) == t);
    } else {
        assert(trim_start(t) == t);
    }
}

/// Removes leading and trailing white space.
pub fn trim(s: &str) -> (r: &str)
    ensures
        r@ == trimmed(s@),
{
    let n = s.unicode_len();
    let mut i: usize = 0;
    assert(s@.subrange(0, n as int) =~= s@);
    while i < n && char_is_whitespace(s.get_char(i))
        invariant
            n == s@.len(),
            i <= n,
            trim_start(s@) == trim_start(s@.subrange(i as int, n as int)),
        decreases n - i,
    {
        assert(s@.subrange(i as int, n as int).drop_first() =~= s@.subrange(i + 1, n as int));
        i = i + 1;
    }
    let ghost front = s@.subrange(i as int, n as int);
    assert(trim_start(s@) == front);
    let mut j: usize = n;
    while j > i && char_is_whitespace(s.get_char(j - 1))
        invariant
            n == s@.len(),
            i <= j <= n,
            front == s@.subrange(i as int, n as int),
            trim_end(front) == trim_end(s@.subrange(i as int, j as int)),
        decreases j,
    {
        assert(s@.subrange(i as int, j as int).drop_last() =~= s@.subrange(i as int, j - 1));
        j = j - 1;
    }
    s.substring_char(i, j)
}


/// The string held by an optional `String`, if any.
pub open spec fn opt_view(o: Option<String>) -> Option<Seq<char>> {
    match o {
        Some(s) => Some(s@),
        None => None,
    }
}

/// What `clean_or_default` gives: the trimmed value, or `default` when the
/// value is absent or only white space.
pub open spec fn cleaned_or(value: Option<Seq<char>>, default: Seq<char>) -> Seq<char> {
    match value {
        Some(v) => if trimmed(v).len() > 0 { trimmed(v) } else { default },
        None => default,
    }
}

/// What `clean_optional` gives: the trimmed value, or nothing when the value
/// is absent or only white space.
pub open spec fn cleaned(value: Option<Seq<char>>) -> Option<Seq<char>> {
    match value {
        Some(v) => if trimmed(v).len() > 0 { Some(trimmed(v)) } else { None },
        None => None,
    }
}

/// A cleaned value is never blank when its default is not, and cleaning
/// it again leaves it as it is.
pub proof fn law_cleaned_is_clean(value: Option<Seq<char>>, default: Seq<char>)
    requires
        trimmed(default) == default,
        default.len() > 0,
    ensures
        cleaned_or(value, default).len() > 0,
        trimmed(cleaned_or(value, default)) == cleaned_or(value, default),
        cleaned_or(Some(cleaned_or(value, default)), default) == cleaned_or(value, default),
{
    if let Some(v) = value {
        lemma_trimmed_idempotent(v);
    }
}

/// The trimmed value, or `default` when it is absent or blank.
pub fn clean_or_default(value: Option<String>, default: &str) -> (r: String)
    ensures
        r@ == cleaned_or(opt_view(value), default@),
{
    match value {
        Some(v) => {
            let t = trim(v.as_str());
            if t.is_empty() {
                default.to_owned()
            } else {
                t.to_owned()
            }
        },
        None => default.to_owned(),
    }
}

/// The trimmed value, or `None` when it is absent or blank.
pub fn clean_optional(value: Option<String>) -> (r: Option<String>)
    ensures
        opt_view(r) == cleaned(opt_view(value)),
{
    match value {
        Some(v) => {
            let t = trim(v.as_str());
            if t.is_empty() {
                None
            } else {
                Some(t.to_owned())
            }
        },
        None => None,
    }
}

/// Whether two string slices hold the same characters.
pub fn str_eq(a: &str, b: &str) -> (r: bool)
    ensures
        r == (a@ == b@),
{
    let n = a.unicode_len();
    if n != b.unicode_len() {
        return false;
    }
    let mut i: usize = 0;
    while i < n
        invariant
            n == a@.len(),
            n == b@.len(),
            i <= n,
            forall|k: int| 0 <= k < i ==> a@[k] == b@[k],
        decreases n - i,
    {
        if a.get_char(i) != b.get_char(i) {
            return false;
        }
        i = i + 1;
    }
    assert(a@ =~= b@);
    true
}

/// Whether `s` holds the character `c`.
pub fn contains_char(s: &str, c: char) -> (r: bool)
    ensures
        r == s@.contains(c),
{
    let n = s.unicode_len();
    let mut i: usize = 0;
    while i < n
        invariant
            n == s@.len(),
            i <= n,
            forall|k: int| 0 <= k < i ==> s@[k] != c,
        decreases n - i,
    {
        if s.get_char(i) == c {
            assert(s@[i as int] == c);
            return true;
        }
        i = i + 1;
    }
    false
}

/// The code of `c` with ASCII upper-case letters mapped to lower case.
pub open spec fn ascii_folded(c: char) -> u32 {
    let x = c as u32;
    if 65 <= x <= 90 { (x + 32) as u32 } else { x }
}

/// Equality up to ASCII case, as `str::eq_ignore_ascii_case` defines it.
pub open spec fn same_ignoring_ascii_case(a: Seq<char>, b: Seq<char>) -> bool {
    &&& a.len() == b.len()
    &&& forall|k: int| 0 <= k < a.len() ==> ascii_folded(a[k]) == ascii_folded(b[k])
}

fn fold_ascii(c: char) -> (r: u32)
    ensures
        r == ascii_folded(c),
{
    let x = c as u32;
    if 65 <= x && x <= 90 {
        x + 32
    } else {
        x
    }
}

/// Compares two strings, ignoring the case of ASCII letters.
pub fn eq_ignore_ascii_case(a: &str, b: &str) -> (r: bool)
    ensures
        r == same_ignoring_ascii_case(a@, b@),
{
    let n = a.unicode_len();
    if n != b.unicode_len() {
        return false;
    }
    let mut i: usize = 0;
    while i < n
        invariant
            n == a@.len(),
            n == b@.len(),
            i <= n,
            forall|k: int| 0 <= k < i ==> ascii_folded(a@[k]) == ascii_folded(b@[k]),
        decreases n - i,
    {
        if fold_ascii(a.get_char(i)) != fold_ascii(b.get_char(i)) {
            return false;
        }
        i = i + 1;
    }
    true
}

/// What `str::to_lowercase` returns for a string: its Unicode lower-case
/// form, which takes the Unicode case tables to state.
pub uninterp spec fn lowercase_of(s: Seq<char>) -> Seq<char>;

/// `str::to_lowercase`: the result is `lowercase_of` the argument.
#[verifier::external_body]
pub(crate) fn to_lowercase(s: &str) -> (r: String)
    ensures
        r@ == lowercase_of(s@),
{
    s.to_lowercase()
}

/// The decimal digit character for `d < 10`.
pub open spec fn digit_char(d: nat) -> char {
    if d == 0 { '0' } else if d == 1 { '1' } else if d == 2 { '2' } else if d == 3 { '3' }
    else if d == 4 { '4' } else if d == 5 { '5' } else if d == 6 { '6' } else if d == 7 { '7' }
    else if d == 8 { '8' } else { '9' }
}

/// The decimal rendering of `n`, without sign or leading zeros.
pub open spec fn decimal(n: nat) -> Seq<char>
    decreases n,
{
    if n < 10 {
        seq![digit_char(n)]
    } else {
        decimal(n / 10) + seq![digit_char(n % 10)]
    }
}

fn digit_str(d: u128) -> (r: &'static str)
    requires
        d < 10,
    ensures
        r@ == seq![digit_char(d as nat)],
{
    proof {
        reveal_strlit("0");
        reveal_strlit("1");
        reveal_strlit("2");
        reveal_strlit("3");
        reveal_strlit("4");
        reveal_strlit("5");
        reveal_strlit("6");
        reveal_strlit("7");
        reveal_strlit("8");
        reveal_strlit("9");
    }
    if d == 0 {
        "0"
    } else if d == 1 {
        "1"
    } else if d == 2 {
        "2"
    } else if d == 3 {
        "3"
    } else if d == 4 {
        "4"
    } else if d == 5 {
        "5"
    } else if d == 6 {
        "6"
    } else if d == 7 {
        "7"
    } else if d == 8 {
        "8"
    } else {
        "9"
    }
}

/// Renders `n` in decimal, as `Display` for integers does.
pub fn decimal_string(n: u128) -> (r: String)
    ensures
        r@ == decimal(n as nat),
    decreases n,
{
    if n < 10 {
        digit_str(n).to_owned()
    } else {
        let mut s = decimal_string(n / 10);
        s.append(digit_str(n % 10));
        s
    }
}

/// `s` with every double quote written twice.
pub open spec fn quotes_doubled(s: Seq<char>) -> Seq<char>
    decreases s.len(),
{
    if s.len() == 0 {
        seq![]
    } else {
        quotes_doubled(s.drop_last()) + if s.last() == '"' { seq!['"', '"'] } else { seq![s.last()] }
    }
}

/// A CSV field: wrapped in double quotes, with inner quotes doubled, when
/// it holds a comma or a double quote; as it is otherwise.
pub open spec fn csv_field(s: Seq<char>) -> Seq<char> {
    if s.contains(',') || s.contains('"') {
        seq!['"'] + quotes_doubled(s) + seq!['"']
    } else {
        s
    }
}

/// Escapes a value for one CSV field.
pub fn escape_csv(value: &str) -> (r: String)
    ensures
        r@ == csv_field(value@),
{
    if contains_char(value, ',') || contains_char(value, '"') {
        proof {
            reveal_strlit("\"");
            reveal_strlit("\"\"");
        }
        let mut out = "\"".to_owned();
        let n = value.unicode_len();
        let mut i: usize = 0;
        assert(value@.take(0) =~= Seq::<char>::empty());
        while i < n
            invariant
                n == value@.len(),
                i <= n,
                out@ == seq!['"'] + quotes_doubled(value@.take(i as int)),
            decreases n - i,
        {
            let c = value.get_char(i);
            assert(value@.take(i + 1).drop_last() =~= value@.take(i as int));
            let ghost before = out@;
            proof {
                reveal_strlit("\"\"");
            }
            if c == '"' {
                out.append("\"\"");
                assert(out@ =~= before + seq!['"', '"']);
            } else {
                let piece = value.substring_char(i, i + 1);
                assert(piece@ =~= seq![c]);
                out.append(piece);
                assert(out@ =~= before + seq![c]);
            }
            assert(value@.take(i + 1).last() == c);
            assert(quotes_doubled(value@.take(i + 1)) == quotes_doubled(value@.take(i as int))
                + if c == '"' { seq!['"', '"'] } else { seq![c] });
            assert(out@ =~= seq!['"'] + quotes_doubled(value@.take(i + 1)));
            i = i + 1;
        }
        assert(value@.take(n as int) =~= value@);
        out.append("\"");
        out
    } else {
        value.to_owned()
    }
}

} // verus!
