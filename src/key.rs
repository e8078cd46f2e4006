//! Object keys: splitting a key at its last `/`, joining a prefix to a name,
//! and the destination keys that copies are written to.

use vstd::prelude::*;
use vstd::string::StrSliceExecFns;
use vstd::string::StringExecFns;

verus! {

/// The character of a decimal digit `d < 10`.
pub open spec fn digit_char(d: nat) -> char {
    if d == 0 {
        '0'
    } else if d == 1 {
        '1'
    } else if d == 2 {
        '2'
    } else if d == 3 {
        '3'
    } else if d == 4 {
        '4'
    } else if d == 5 {
        '5'
    } else if d == 6 {
        '6'
    } else if d == 7 {
        '7'
    } else if d == 8 {
        '8'
    } else {
        '9'
    }
}

/// Whether `c` is one of the ASCII digits.
pub open spec fn is_digit(c: char) -> bool {
    '0' <= c && c <= '9'
}

/// The base-10 rendering of `n`, most significant digit first, without
/// leading zeros.
pub open spec fn decimal(n: nat) -> Seq<char>
    decreases n,
{
    if n < 10 {
        seq![digit_char(n)]
    } else {
        decimal(n / 10).push(digit_char(n % 10))
    }
}

/// A numeral as the destination keys carry it: at least one digit, only
/// digits, no leading zero unless it is the numeral `0`, and at most 39
/// digits (the width of the largest 128-bit value).
pub open spec fn is_numeral(s: Seq<char>) -> bool {
    &&& 1 <= s.len() <= 39
    &&& forall|i: int| 0 <= i < s.len() ==> is_digit(#[trigger] s[i])
    &&& s[0] == '0' ==> s.len() == 1
}

/// The value of a string of digits.
pub open spec fn numeral_value(s: Seq<char>) -> nat
    decreases s.len(),
{
    if s.len() == 0 {
        0
    } else {
        numeral_value(s.drop_last()) * 10 + ((s.last() as u32 - '0' as u32) as nat)
    }
}

pub open spec fn pow10(k: nat) -> nat
    decreases k,
{
    if k == 0 {
        1
    } else {
        10 * pow10((k - 1) as nat)
    }
}

/// `prefix/name`, or `name` alone when the prefix is empty.
pub open spec fn joined(prefix: Seq<char>, name: Seq<char>) -> Seq<char> {
    if prefix.len() == 0 {
        name
    } else {
        prefix + seq!['/'] + name
    }
}

/// The fixed text that starts the name of every copy.
pub open spec fn copy_marker() -> Seq<char> {
    seq!['n', 'e', 'w', '_', 'j', 's', 'o', 'n', '_']
}

/// The key of the copy named by `suffix`, under `prefix`.
pub open spec fn destination_key_of(prefix: Seq<char>, suffix: nat) -> Seq<char> {
    joined(prefix, copy_marker() + decimal(suffix))
}

/// The position of the last `/` in `s`, or -1 when there is none.
pub open spec fn last_slash(s: Seq<char>) -> int
    decreases s.len(),
{
    if s.len() == 0 {
        -1
    } else if s.last() == '/' {
        s.len() - 1
    } else {
        last_slash(s.drop_last())
    }
}

/// What stands before the last `/` of a key; empty when it has none.
pub open spec fn prefix_of(key: Seq<char>) -> Seq<char> {
    if last_slash(key) < 0 {
        Seq::empty()
    } else {
        key.subrange(0, last_slash(key))
    }
}

/// What follows the last `/` of a key; the whole key when it has none.
pub open spec fn name_of(key: Seq<char>) -> Seq<char> {
    key.subrange(last_slash(key) + 1, key.len() as int)
}

/// `s` without its leading run of `/`.
pub open spec fn trim_leading_slashes(s: Seq<char>) -> Seq<char>
    decreases s.len(),
{
    if s.len() > 0 && s[0] == '/' {
        trim_leading_slashes(s.drop_first())
    } else {
        s
    }
}

/// The `bucket/key` text that names a copy's source object.
pub open spec fn copy_source_of(bucket: Seq<char>, key: Seq<char>) -> Seq<char> {
    bucket + seq!['/'] + key
}

proof fn lemma_last_slash_bounds(s: Seq<char>)
    ensures
        -1 <= last_slash(s) < s.len(),
        last_slash(s) >= 0 ==> s[last_slash(s)] == '/',
        forall|i: int| last_slash(s) < i < s.len() ==> s[i] != '/',
    decreases s.len(),
{
    if s.len() > 0 && s.last() != '/' {
        lemma_last_slash_bounds(s.drop_last());
        assert forall|i: int| last_slash(s) < i < s.len() implies s[i] != '/' by {
            if i < s.len() - 1 {
                assert(s[i] == s.drop_last()[i]);
            }
        }
    }
}

proof fn lemma_digit_char(d: nat)
    requires
        d < 10,
    ensures
        is_digit(digit_char(d)),
        (digit_char(d) as u32 - '0' as u32) as nat == d,
        digit_char(d) == '0' ==> d == 0,
{
}

proof fn lemma_decimal_digits(n: nat)
    ensures
        decimal(n).len() >= 1,
        forall|i: int| 0 <= i < decimal(n).len() ==> is_digit(#[trigger] decimal(n)[i]),
        decimal(n)[0] == '0' ==> n == 0,
        numeral_value(decimal(n)) == n,
    decreases n,
{
    if n < 10 {
        lemma_digit_char(n);
        assert(decimal(n).drop_last() =~= Seq::<char>::empty());
        assert(numeral_value(Seq::<char>::empty()) == 0);
    } else {
        lemma_digit_char(n % 10);
        lemma_decimal_digits(n / 10);
        let d = decimal(n);
        assert(d.drop_last() == decimal(n / 10));
        assert forall|i: int| 0 <= i < d.len() implies is_digit(#[trigger] d[i]) by {
            if i < d.len() - 1 {
                assert(d[i] == decimal(n / 10)[i]);
            }
        }
        assert(d[0] == decimal(n / 10)[0]);
        assert(numeral_value(d) == (n / 10) * 10 + n % 10);
        assert((n / 10) * 10 + n % 10 == n) by (nonlinear_arith);
    }
}

proof fn lemma_decimal_len(n: nat, k: nat)
    requires
        k >= 1,
        n < pow10(k),
    ensures
        decimal(n).len() <= k,
    decreases k,
{
    if n >= 10 {
        assert(k >= 2) by {
            if k == 1 {
                reveal_with_fuel(pow10, 2);
            }
        }
        assert(n / 10 < pow10((k - 1) as nat)) by (nonlinear_arith)
            requires
                n < pow10(k),
                pow10(k) == 10 * pow10((k - 1) as nat),
        ;
        lemma_decimal_len(n / 10, (k - 1) as nat);
    }
}

/// Every 128-bit value renders as a well-formed numeral.
pub proof fn lemma_decimal_is_numeral(n: u128)
    ensures
        is_numeral(decimal(n as nat)),
{
    lemma_decimal_digits(n as nat);
    reveal_with_fuel(pow10, 40);
    assert(pow10(39) == 1000000000000000000000000000000000000000nat);
    lemma_decimal_len(n as nat, 39);
}


/// The one-character text of the digit `d`.
fn digit_text(d: u128) -> (r: &'static str)
    requires
        d < 10,
    ensures
        r@ == seq![digit_char(d as nat)],
{
    if d == 0 {
        proof {
            reveal_strlit("0");
        }
        "0"
    } else if d == 1 {
        proof {
            reveal_strlit("1");
        }
        "1"
    } else if d == 2 {
        proof {
            reveal_strlit("2");
        }
        "2"
    } else if d == 3 {
        proof {
            reveal_strlit("3");
        }
        "3"
    } else if d == 4 {
        proof {
            reveal_strlit("4");
        }
        "4"
    } else if d == 5 {
        proof {
            reveal_strlit("5");
        }
        "5"
    } else if d == 6 {
        proof {
            reveal_strlit("6");
        }
        "6"
    } else if d == 7 {
        proof {
            reveal_strlit("7");
        }
        "7"
    } else if d == 8 {
        proof {
            reveal_strlit("8");
        }
        "8"
    } else {
        proof {
            reveal_strlit("9");
        }
        "9"
    }
}

/// Appends the base-10 rendering of `n` to `out`.
fn push_decimal(out: &mut String, n: u128)
    ensures
        final(out)@ == old(out)@ + decimal(n as nat),
    decreases n,
{
    if n >= 10 {
        push_decimal(out, n / 10);
    }
    out.append(digit_text(n % 10));
    proof {
        if n < 10 {
            assert(decimal(n as nat) == seq![digit_char(n as nat)]);
        }
    }
}

/// The base-10 rendering of `n`, as `u128::to_string` gives it.
pub fn decimal_text(n: u128) -> (r: String)
    ensures
        r@ == decimal(n as nat),
{
    let mut out = String::new();
    push_decimal(&mut out, n);
    out
}

/// `prefix/name`, or `name` alone when `prefix` is empty.
pub fn join_key(prefix: &str, name: &str) -> (r: String)
    ensures
        r@ == joined(prefix@, name@),
{
    let mut out = String::from_str(prefix);
    if !prefix.is_empty() {
        proof {
            reveal_strlit("/");
        }
        out.append("/");
    }
    out.append(name);
    out
}

/// The key that the copy named by `suffix` gets under `prefix`:
/// `prefix/new_json_<suffix>`, without the `/` when `prefix` is empty.
pub fn destination_key(prefix: &str, suffix: u128) -> (r: String)
    ensures
        r@ == destination_key_of(prefix@, suffix as nat),
{
    let mut name = String::new();
    proof {
        reveal_strlit("new_json_");
    }
    name.append("new_json_");
    push_decimal(&mut name, suffix);
    assert(name@ == copy_marker() + decimal(suffix as nat));
    join_key(prefix, name.as_str())
}

/// The `bucket/key` text that names the source of a server-side copy.
pub fn copy_source(bucket: &str, key: &str) -> (r: String)
    ensures
        r@ == copy_source_of(bucket@, key@),
{
    let mut out = String::from_str(bucket);
    proof {
        reveal_strlit("/");
    }
    out.append("/");
    out.append(key);
    out
}

/// `path` without its leading run of `/`.
pub fn strip_leading_slashes(path: &str) -> (r: &str)
    ensures
        r@ == trim_leading_slashes(path@),
{
    let len = path.unicode_len();
    let mut i: usize = 0;
    assert(path@.subrange(0, len as int) =~= path@);
    while i < len && path.get_char(i) == '/'
        invariant
            len == path@.len(),
            i <= len,
            trim_leading_slashes(path@) == trim_leading_slashes(path@.subrange(i as int, len as int)),
        decreases len - i,
    {
        let ghost rest = path@.subrange(i as int, len as int);
        assert(rest.drop_first() =~= path@.subrange(i + 1, len as int));
        i = i + 1;
    }
    let r = path.substring_char(i, len);
    proof {
        let rest = path@.subrange(i as int, len as int);
        assert(!(rest.len() > 0 && rest[0] == '/'));
    }
    r
}

/// Splits a key at its last `/` into the prefix before it and the object
/// name after it. A key without `/` has an empty prefix and is its own name.
pub fn split_key(key: &str) -> (r: (String, String))
    ensures
        r.0@ == prefix_of(key@),
        r.1@ == name_of(key@),
{
    let len = key.unicode_len();
    let mut i: usize = len;
    assert(key@.subrange(0, len as int) =~= key@);
    while i > 0 && key.get_char(i - 1) != '/'
        invariant
            len == key@.len(),
            i <= len,
            last_slash(key@) == last_slash(key@.subrange(0, i as int)),
        decreases i,
    {
        let ghost head = key@.subrange(0, i as int);
        assert(head.drop_last() =~= key@.subrange(0, i - 1));
        i = i - 1;
    }
    proof {
        let head = key@.subrange(0, i as int);
        if i > 0 {
            assert(head.last() == '/');
        } else {
            assert(head.len() == 0);
        }
    }
    if i == 0 {
        (String::new(), String::from_str(key))
    } else {
        (String::from_str(key.substring_char(0, i - 1)), String::from_str(key.substring_char(i, len)))
    }
}

/// Splitting a key at its last `/`: when the key has a `/`, it is the prefix,
/// a `/` and a name that holds no `/`; when it has none, the prefix is empty
/// and the name is the whole key.
pub proof fn lemma_split_key(key: Seq<char>)
    ensures
        key.contains('/') ==> key == prefix_of(key) + seq!['/'] + name_of(key),
        !name_of(key).contains('/'),
        !key.contains('/') ==> prefix_of(key) == Seq::<char>::empty() && name_of(key) == key,
{
    lemma_last_slash_bounds(key);
    let k = last_slash(key);
    if key.contains('/') {
        let j = choose|j: int| 0 <= j < key.len() && key[j] == '/';
        assert(k >= 0);
        assert(key =~= prefix_of(key) + seq!['/'] + name_of(key));
    } else {
        if k >= 0 {
            assert(key[k] == '/');
        }
        assert(name_of(key) =~= key);
    }
    assert forall|i: int| 0 <= i < name_of(key).len() implies name_of(key)[i] != '/' by {
        assert(name_of(key)[i] == key[k + 1 + i]);
    }
}

/// A key that does not start with `/` is rebuilt by joining its prefix and
/// its name again: the source key names the object that the URI named.
pub proof fn lemma_join_split(key: Seq<char>)
    requires
        !(key.len() > 0 && key[0] == '/'),
    ensures
        joined(prefix_of(key), name_of(key)) == key,
{
    lemma_split_key(key);
    lemma_last_slash_bounds(key);
    if key.contains('/') {
        assert(last_slash(key) > 0);
        assert(prefix_of(key).len() > 0);
    }
}

/// Every destination key under `prefix` is `prefix/new_json_` (just
/// `new_json_` when the prefix is empty) followed by a well-formed numeral.
pub proof fn lemma_destination_key_shape(prefix: Seq<char>, suffix: u128)
    ensures
        prefix.len() > 0 ==> destination_key_of(prefix, suffix as nat) == prefix + seq!['/']
            + copy_marker() + decimal(suffix as nat),
        prefix.len() == 0 ==> destination_key_of(prefix, suffix as nat) == copy_marker()
            + decimal(suffix as nat),
        is_numeral(decimal(suffix as nat)),
{
    lemma_decimal_is_numeral(suffix);
    if prefix.len() > 0 {
        assert(prefix + seq!['/'] + (copy_marker() + decimal(suffix as nat)) =~= prefix + seq!['/']
            + copy_marker() + decimal(suffix as nat));
    }
}

/// Destination keys under one prefix are equal only when their suffixes are:
/// distinct draws never name the same copy.
pub proof fn lemma_destination_keys_distinct(prefix: Seq<char>, a: u128, b: u128)
    requires
        a != b,
    ensures
        destination_key_of(prefix, a as nat) != destination_key_of(prefix, b as nat),
{
    lemma_decimal_digits(a as nat);
    lemma_decimal_digits(b as nat);
    let ka = destination_key_of(prefix, a as nat);
    let kb = destination_key_of(prefix, b as nat);
    let skip = if prefix.len() == 0 { 9int } else { prefix.len() + 10int };
    if ka == kb {
        assert(ka.subrange(skip, ka.len() as int) =~= decimal(a as nat));
        assert(kb.subrange(skip, kb.len() as int) =~= decimal(b as nat));
    }
}

} // verus!
