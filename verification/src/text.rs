//! Verified text helpers: decimal formatting and parsing, character-wise
//! string equality, and the builders of the cache keys and bus channel
//! names the services agree on.

use vstd::prelude::*;

verus! {

use vstd::string::StrSliceExecFns;
use vstd::string::StringExecFns;

/// The character for one decimal digit.
pub open spec fn digit_char(d: int) -> char {
    if d == 0 {
        '0'
    } else if d == 1 {
        '1'
    } else if d == 2 {
        '2'
    } else if d == 3 {
        '3'
    } else if d == 4 {
        '4'
    } else if d == 5 {
        '5'
    } else if d == 6 {
        '6'
    } else if d == 7 {
        '7'
    } else if d == 8 {
        '8'
    } else {
        '9'
    }
}

/// The decimal digit sequence of a nonnegative number, most significant first.
pub open spec fn dec_digits(n: int) -> Seq<char>
    decreases n,
{
    if n < 10 {
        seq![digit_char(n)]
    } else {
        dec_digits(n / 10).push(digit_char(n % 10))
    }
}

/// The decimal rendering of a signed number.
pub open spec fn dec_int(n: int) -> Seq<char> {
    if n < 0 {
        seq!['-'] + dec_digits(-n)
    } else {
        dec_digits(n)
    }
}

/// Append one decimal digit character.
fn append_digit(s: &mut String, d: u64)
    requires
        d < 10,
    ensures
        final(s)@ == old(s)@.push(digit_char(d as int)),
{
    proof {
        reveal_strlit("0");
        reveal_strlit("1");
        reveal_strlit("2");
        reveal_strlit("3");
        reveal_strlit("4");
        reveal_strlit("5");
        reveal_strlit("6");
        reveal_strlit("7");
        reveal_strlit("8");
        reveal_strlit("9");
    }
    match d {
        0 => s.append("0"),
        1 => s.append("1"),
        2 => s.append("2"),
        3 => s.append("3"),
        4 => s.append("4"),
        5 => s.append("5"),
        6 => s.append("6"),
        7 => s.append("7"),
        8 => s.append("8"),
        _ => s.append("9"),
    }
    proof {
        assert(final(s)@ =~= old(s)@.push(digit_char(d as int)));
    }
}

/// Append the decimal digits of `n`.
pub fn append_dec_u64(s: &mut String, n: u64)
    ensures
        final(s)@ == old(s)@ + dec_digits(n as int),
    decreases n,
{
    if n >= 10 {
        append_dec_u64(s, n / 10);
    }
    append_digit(s, n % 10);
    proof {
        if n < 10 {
            assert(dec_digits(n as int) =~= seq![digit_char(n as int)]);
        }
        assert(final(s)@ =~= old(s)@ + dec_digits(n as int));
    }
}

/// The decimal string of an unsigned number.
pub fn u64_to_string(n: u64) -> (r: String)
    ensures
        r@ == dec_digits(n as int),
{
    let mut s = String::new();
    append_dec_u64(&mut s, n);
    proof {
        assert(s@ =~= dec_digits(n as int));
    }
    s
}

/// Append the decimal rendering of a signed number, minus sign included.
pub fn append_dec_i64(s: &mut String, n: i64)
    ensures
        final(s)@ == old(s)@ + dec_int(n as int),
{
    if n < 0 {
        proof {
            reveal_strlit("-");
        }
        s.append("-");
        let m: u64 = ((-(n + 1)) as u64) + 1;
        append_dec_u64(s, m);
        proof {
            assert(final(s)@ =~= old(s)@ + dec_int(n as int));
        }
    } else {
        append_dec_u64(s, n as u64);
    }
}

/// The decimal string of a signed number.
pub fn i64_to_string(n: i64) -> (r: String)
    ensures
        r@ == dec_int(n as int),
{
    let mut s = String::new();
    append_dec_i64(&mut s, n);
    proof {
        assert(s@ =~= dec_int(n as int));
    }
    s
}

/// Character-wise string equality, giving `==` of the views.
pub fn str_eq(a: &str, b: &str) -> (r: bool)
    ensures
        r == (a@ == b@),
{
    let la = a.unicode_len();
    let lb = b.unicode_len();
    if la != lb {
        return false;
    }
    let mut i: usize = 0;
    while i < la
        invariant
            0 <= i <= la,
            la == a@.len(),
            la == b@.len(),
            forall|k: int| 0 <= k < i ==> a@[k] == b@[k],
        decreases la - i,
    {
        if a.get_char(i) != b.get_char(i) {
            return false;
        }
        i = i + 1;
    }
    proof {
        assert(a@ =~= b@);
    }
    true
}

/// Whether `s` starts with `prefix`, comparing characters.
pub fn str_has_prefix(s: &str, prefix: &str) -> (r: bool)
    ensures
        r == (s@.len() >= prefix@.len() && s@.subrange(0, prefix@.len() as int) == prefix@),
{
    let ls = s.unicode_len();
    let lp = prefix.unicode_len();
    if ls < lp {
        return false;
    }
    let head = s.substring_char(0, lp);
    str_eq(head, prefix)
}

/// Lexicographic order on character sequences, the order a database
/// gives opaque string ids.
pub open spec fn chars_lt(a: Seq<char>, b: Seq<char>) -> bool
    decreases a.len(),
{
    if b.len() == 0 {
        false
    } else if a.len() == 0 {
        true
    } else if a[0] != b[0] {
        (a[0] as int) < (b[0] as int)
    } else {
        chars_lt(a.drop_first(), b.drop_first())
    }
}

/// Character-wise lexicographic comparison of two strings.
pub fn str_lt(a: &str, b: &str) -> (r: bool)
    ensures
        r == chars_lt(a@, b@),
{
    let la = a.unicode_len();
    let lb = b.unicode_len();
    let mut i: usize = 0;
    proof {
        assert(a@.skip(0) =~= a@);
        assert(b@.skip(0) =~= b@);
    }
    while i < la && i < lb
        invariant
            la == a@.len(),
            lb == b@.len(),
            0 <= i <= la,
            0 <= i <= lb,
            chars_lt(a@, b@) == chars_lt(a@.skip(i as int), b@.skip(i as int)),
        decreases la - i,
    {
        let ca = a.get_char(i);
        let cb = b.get_char(i);
        proof {
            assert(a@.skip(i as int)[0] == a@[i as int]);
            assert(b@.skip(i as int)[0] == b@[i as int]);
            assert(a@.skip(i as int).len() > 0);
            assert(b@.skip(i as int).len() > 0);
        }
        if ca != cb {
            return (ca as u32) < (cb as u32);
        }
        proof {
            assert(a@.skip(i as int).drop_first() =~= a@.skip(i as int + 1));
            assert(b@.skip(i as int).drop_first() =~= b@.skip(i as int + 1));
        }
        i = i + 1;
    }
    proof {
        if i == la {
            assert(a@.skip(i as int).len() == 0);
        }
        if i == lb {
            assert(b@.skip(i as int).len() == 0);
        }
    }
    la < lb
}

/// Two distinct character sequences are ordered one way or the other.
pub proof fn lemma_chars_lt_connected(a: Seq<char>, b: Seq<char>)
    ensures
        a == b || chars_lt(a, b) || chars_lt(b, a),
    decreases a.len(),
{
    if a.len() == 0 {
        if b.len() == 0 {
            assert(a =~= b);
        }
    } else if b.len() == 0 {
    } else if a[0] == b[0] {
        lemma_chars_lt_connected(a.drop_first(), b.drop_first());
        if a.drop_first() == b.drop_first() {
            assert(a.drop_first().len() == a.len() - 1);
            assert(b.drop_first().len() == b.len() - 1);
            assert(a.len() == b.len());
            assert forall|k: int| 0 <= k < a.len() implies a[k] == b[k] by {
                if k == 0 {
                    assert(a[0] == b[0]);
                } else {
                    assert(a[k] == a.drop_first()[k - 1]);
                    assert(b[k] == b.drop_first()[k - 1]);
                }
            }
            assert(a =~= b);
        }
    }
}

/// The lexicographic order is transitive.
pub proof fn lemma_chars_lt_trans(a: Seq<char>, b: Seq<char>, c: Seq<char>)
    requires
        chars_lt(a, b),
        chars_lt(b, c),
    ensures
        chars_lt(a, c),
    decreases a.len(),
{
    if a.len() == 0 {
    } else {
        if a[0] == b[0] {
            if b[0] == c[0] {
                lemma_chars_lt_trans(a.drop_first(), b.drop_first(), c.drop_first());
            }
        }
    }
}

/// Whether `c` is a decimal digit, and its value.
pub open spec fn is_digit(c: char) -> bool {
    '0' <= c <= '9'
}

pub open spec fn digit_value(c: char) -> int {
    c as int - '0' as int
}

/// The value of a digit string, most significant first.
pub open spec fn digits_value(s: Seq<char>) -> int
    decreases s.len(),
{
    if s.len() == 0 {
        0
    } else {
        digits_value(s.drop_last()) * 10 + digit_value(s.last())
    }
}

pub open spec fn all_digits(s: Seq<char>) -> bool {
    forall|k: int| 0 <= k < s.len() ==> is_digit(#[trigger] s[k])
}

/// Parse an unsigned decimal number; `None` on empty input, a non-digit,
/// or a value that does not fit in the range given by `max`.
pub fn parse_u64_decimal(s: &str, max: u64) -> (r: Option<u64>)
    ensures
        r is Some <==> (s@.len() > 0 && all_digits(s@) && digits_value(s@) <= max),
        r is Some ==> r->0 == digits_value(s@),
{
    let n = s.unicode_len();
    if n == 0 {
        return None;
    }
    let mut i: usize = 0;
    let mut acc: u64 = 0;
    while i < n
        invariant
            0 <= i <= n,
            n == s@.len(),
            max <= u64::MAX,
            acc == digits_value(s@.subrange(0, i as int)),
            acc <= max,
            all_digits(s@.subrange(0, i as int)),
        decreases n - i,
    {
        let c = s.get_char(i);
        if !(c >= '0' && c <= '9') {
            proof {
                assert(s@[i as int] == c);
                assert(!all_digits(s@));
            }
            return None;
        }
        let d: u32 = c as u32 - 48;
        if acc > max / 10 || (acc == max / 10 && (d as u64) > max % 10) {
            proof {
                lemma_digits_value_grows(s@, i as int, max as int);
            }
            return None;
        }
        acc = acc * 10 + (d as u64);
        proof {
            assert(s@.subrange(0, i + 1).drop_last() =~= s@.subrange(0, i as int));
            assert(s@.subrange(0, i + 1).last() == c);
        }
        i = i + 1;
    }
    proof {
        assert(s@.subrange(0, n as int) =~= s@);
    }
    Some(acc)
}

/// If a digit prefix already exceeds `max` when extended by its next digit,
/// the whole digit string exceeds `max`.
proof fn lemma_digits_value_grows(s: Seq<char>, i: int, max: int)
    requires
        0 <= i < s.len(),
        is_digit(s[i]),
        all_digits(s.subrange(0, i)),
        digits_value(s.subrange(0, i)) * 10 + digit_value(s[i]) > max,
        max >= 0,
    ensures
        all_digits(s) ==> digits_value(s) > max,
    decreases s.len() - i,
{
    if all_digits(s) {
        assert(s.subrange(0, i + 1).drop_last() =~= s.subrange(0, i));
        assert(s.subrange(0, i + 1).last() == s[i]);
        if i + 1 == s.len() {
            assert(s.subrange(0, i + 1) =~= s);
        } else {
            lemma_digits_value_monotone(s, i + 1);
        }
    }
}

/// A longer digit prefix never has a smaller value.
proof fn lemma_digits_value_monotone(s: Seq<char>, i: int)
    requires
        0 <= i < s.len(),
        all_digits(s),
        digits_value(s.subrange(0, i)) >= 0,
    ensures
        digits_value(s) >= digits_value(s.subrange(0, i)),
        digits_value(s) >= 0,
    decreases s.len() - i,
{
    let v = digits_value(s.subrange(0, i));
    assert(s.subrange(0, i + 1).drop_last() =~= s.subrange(0, i));
    assert(is_digit(s[i]));
    assert(digits_value(s.subrange(0, i + 1)) == v * 10 + digit_value(s[i]));
    assert(v * 10 >= v) by (nonlinear_arith)
        requires
            v >= 0,
    ;
    if i + 1 == s.len() {
        assert(s.subrange(0, i + 1) =~= s);
    } else {
        lemma_digits_value_monotone(s, i + 1);
    }
}

/// Key under which a payment is cached.
pub fn payment_cache_key(payment_id: &str) -> (r: String)
    ensures
        r@ == "payment:"@ + payment_id@,
{
    let mut s = String::new();
    s.append("payment:");
    s.append(payment_id);
    proof {
        assert(s@ =~= "payment:"@ + payment_id@);
    }
    s
}

/// Key under which a user record is cached.
pub fn user_cache_key(user_id: i64) -> (r: String)
    ensures
        r@ == "user:"@ + dec_int(user_id as int),
{
    let mut s = String::new();
    s.append("user:");
    append_dec_i64(&mut s, user_id);
    proof {
        assert(s@ =~= "user:"@ + dec_int(user_id as int));
    }
    s
}

/// Key under which a user's rate-limit counter for an action is stored.
pub fn rate_limit_key(user_id: i64, action: &str) -> (r: String)
    ensures
        r@ == "rate_limit:"@ + dec_int(user_id as int) + ":"@ + action@,
{
    let mut s = String::new();
    s.append("rate_limit:");
    append_dec_i64(&mut s, user_id);
    s.append(":");
    s.append(action);
    proof {
        assert(s@ =~= "rate_limit:"@ + dec_int(user_id as int) + ":"@ + action@);
    }
    s
}

/// Key under which a user's last-seen timestamp is stored.
pub fn last_seen_key(user_id: i64) -> (r: String)
    ensures
        r@ == "user:"@ + dec_int(user_id as int) + ":last_seen"@,
{
    let mut s = String::new();
    s.append("user:");
    append_dec_i64(&mut s, user_id);
    s.append(":last_seen");
    proof {
        assert(s@ =~= "user:"@ + dec_int(user_id as int) + ":last_seen"@);
    }
    s
}

/// Bus channel that carries the events of one room.
pub fn room_channel(room_id: &str) -> (r: String)
    ensures
        r@ == "chat:room:"@ + room_id@,
{
    let mut s = String::new();
    s.append("chat:room:");
    s.append(room_id);
    proof {
        assert(s@ =~= "chat:room:"@ + room_id@);
    }
    s
}

/// Bus channel that carries the events aimed at one user.
pub fn user_channel(user_id: i64) -> (r: String)
    ensures
        r@ == "chat:user:"@ + dec_int(user_id as int),
{
    let mut s = String::new();
    s.append("chat:user:");
    append_dec_i64(&mut s, user_id);
    proof {
        assert(s@ =~= "chat:user:"@ + dec_int(user_id as int));
    }
    s
}

/// Glue segments back together with the separator between them.
pub open spec fn join_chars(segs: Seq<Seq<char>>, sep: char) -> Seq<char>
    decreases segs.len(),
{
    if segs.len() == 0 {
        Seq::empty()
    } else if segs.len() == 1 {
        segs[0]
    } else {
        join_chars(segs.drop_last(), sep) + seq![sep] + segs.last()
    }
}

/// Split a string on a separator character. The pieces contain no
/// separator and joining them with it restores the input exactly, which
/// pins the result down.
pub fn split_on(s: &str, sep: char) -> (r: Vec<String>)
    ensures
        r@.len() >= 1,
        forall|k: int| 0 <= k < r@.len() ==> !(#[trigger] r@[k])@.contains(sep),
        join_chars(r@.map_values(|x: String| x@), sep) == s@,
{
    let n = s.unicode_len();
    let mut out: Vec<String> = Vec::new();
    let mut start: usize = 0;
    let mut i: usize = 0;
    while i < n
        invariant
            n == s@.len(),
            0 <= start <= i <= n,
            forall|k: int| start <= k < i ==> s@[k] != sep,
            forall|k: int| 0 <= k < out@.len() ==> !(#[trigger] out@[k])@.contains(sep),
            out@.len() == 0 ==> start == 0,
            out@.len() >= 1 ==> join_chars(out@.map_values(|x: String| x@), sep) + seq![sep]
                =~= s@.subrange(0, start as int),
        decreases n - i,
    {
        if s.get_char(i) == sep {
            let seg = s.substring_char(start, i).to_owned();
            proof {
                assert(seg@ =~= s@.subrange(start as int, i as int));
                assert forall|k: int| 0 <= k < seg@.len() implies seg@[k] != sep by {
                    assert(seg@[k] == s@[start + k]);
                }
                if seg@.contains(sep) {
                    let k = choose|k: int| 0 <= k < seg@.len() && seg@[k] == sep;
                    assert(false);
                }
            }
            let ghost pre = out@;
            out.push(seg);
            proof {
                let views = out@.map_values(|x: String| x@);
                assert(views.drop_last() =~= pre.map_values(|x: String| x@));
                assert(views.last() == seg@);
                if pre.len() == 0 {
                    assert(join_chars(views, sep) == seg@);
                    assert(join_chars(views, sep) + seq![sep] =~= s@.subrange(0, i as int + 1));
                } else {
                    assert(join_chars(views, sep) == join_chars(views.drop_last(), sep)
                        + seq![sep] + seg@);
                    assert(join_chars(views, sep) + seq![sep] =~= s@.subrange(0, i as int + 1));
                }
            }
            start = i + 1;
        }
        i = i + 1;
    }
    let seg = s.substring_char(start, n).to_owned();
    proof {
        assert(seg@ =~= s@.subrange(start as int, n as int));
        assert forall|k: int| 0 <= k < seg@.len() implies seg@[k] != sep by {
            assert(seg@[k] == s@[start + k]);
        }
        if seg@.contains(sep) {
            let k = choose|k: int| 0 <= k < seg@.len() && seg@[k] == sep;
            assert(false);
        }
    }
    let ghost pre = out@;
    out.push(seg);
    proof {
        let views = out@.map_values(|x: String| x@);
        assert(views.drop_last() =~= pre.map_values(|x: String| x@));
        assert(views.last() == seg@);
        if pre.len() == 0 {
            assert(join_chars(views, sep) == seg@);
            assert(join_chars(views, sep) =~= s@);
        } else {
            assert(join_chars(views, sep) == join_chars(views.drop_last(), sep) + seq![sep]
                + seg@);
            assert(join_chars(views, sep) =~= s@);
        }
    }
    out
}

/// The value carried by the first `token=` segment, for socket upgrades
/// authenticated through the query string.
pub fn find_query_token(segs: &Vec<String>) -> (r: Option<String>)
    ensures
        (r is Some <==> exists|k: int|
            0 <= k < segs@.len() && (#[trigger] segs@[k])@.len() >= 6 && segs@[k]@.subrange(0, 6)
                == "token="@),
        r matches Some(tok) ==> (exists|k: int|
            {
                &&& 0 <= k < segs@.len()
                &&& (#[trigger] segs@[k])@.len() >= 6
                &&& segs@[k]@.subrange(0, 6) == "token="@
                &&& tok@ == segs@[k]@.subrange(6, segs@[k]@.len() as int)
                &&& forall|j: int|
                    0 <= j < k ==> !((#[trigger] segs@[j])@.len() >= 6 && segs@[j]@.subrange(0, 6)
                        == "token="@)
            }),
{
    proof {
        reveal_strlit("token=");
    }
    let n = segs.len();
    let mut i: usize = 0;
    while i < n
        invariant
            n == segs@.len(),
            0 <= i <= n,
            "token="@.len() == 6,
            forall|j: int|
                0 <= j < i ==> !((#[trigger] segs@[j])@.len() >= 6 && segs@[j]@.subrange(0, 6)
                    == "token="@),
        decreases n - i,
    {
        if str_has_prefix(segs[i].as_str(), "token=") {
            let lk = segs[i].as_str().unicode_len();
            let tok = segs[i].as_str().substring_char(6, lk).to_owned();
            return Some(tok);
        }
        i = i + 1;
    }
    None
}

/// Whether some string in the list reads like `r`.
pub open spec fn contains_view(s: Seq<String>, r: Seq<char>) -> bool {
    exists|k: int| 0 <= k < s.len() && (#[trigger] s[k])@ == r
}

/// Whether a string is a well-formed signed decimal within i64 range.
pub open spec fn parse_i64_ok(s: Seq<char>) -> bool {
    if s.len() >= 1 && s[0] == '-' {
        &&& s.len() >= 2
        &&& all_digits(s.subrange(1, s.len() as int))
        &&& digits_value(s.subrange(1, s.len() as int)) <= 0x8000000000000000
    } else {
        &&& s.len() > 0
        &&& all_digits(s)
        &&& digits_value(s) <= 0x7fffffffffffffff
    }
}

/// The value such a string denotes.
pub open spec fn parse_i64_val(s: Seq<char>) -> int {
    if s.len() >= 1 && s[0] == '-' {
        -digits_value(s.subrange(1, s.len() as int))
    } else {
        digits_value(s)
    }
}

/// Parse a signed decimal number in i64 range.
pub fn parse_i64_decimal(s: &str) -> (r: Option<i64>)
    ensures
        r is Some <==> parse_i64_ok(s@),
        r matches Some(v) ==> v == parse_i64_val(s@),
{
    let n = s.unicode_len();
    if n == 0 {
        return None;
    }
    if s.get_char(0) == '-' {
        let rest = s.substring_char(1, n);
        proof {
            assert(rest@ =~= s@.subrange(1, s@.len() as int));
        }
        match parse_u64_decimal(rest, 9223372036854775808u64) {
            Some(v) => {
                if v == 9223372036854775808u64 {
                    Some(i64::MIN)
                } else {
                    Some(-(v as i64))
                }
            },
            None => None,
        }
    } else {
        match parse_u64_decimal(s, 9223372036854775807u64) {
            Some(v) => Some(v as i64),
            None => None,
        }
    }
}

/// Key under which the HTTP limiter stores one principal's bucket for a
/// path.
pub fn http_bucket_key(principal: i64, path: &str) -> (r: String)
    ensures
        r@ == "rate_limit:token_bucket:"@ + dec_int(principal as int) + ":"@ + path@,
{
    let mut s = String::new();
    s.append("rate_limit:token_bucket:");
    append_dec_i64(&mut s, principal);
    s.append(":");
    s.append(path);
    proof {
        assert(s@ =~= "rate_limit:token_bucket:"@ + dec_int(principal as int) + ":"@ + path@);
    }
    s
}

/// The first piece of a split is a prefix of the joined whole.
pub proof fn lemma_join_first_prefix(segs: Seq<Seq<char>>, sep: char)
    requires
        segs.len() >= 1,
    ensures
        segs[0].len() <= join_chars(segs, sep).len(),
        join_chars(segs, sep).subrange(0, segs[0].len() as int) == segs[0],
        segs[0].len() < join_chars(segs, sep).len() ==> join_chars(segs, sep)[segs[0].len() as int]
            == sep,
    decreases segs.len(),
{
    if segs.len() == 1 {
        assert(join_chars(segs, sep).subrange(0, segs[0].len() as int) =~= segs[0]);
    } else {
        lemma_join_first_prefix(segs.drop_last(), sep);
        let j1 = join_chars(segs.drop_last(), sep);
        let j = join_chars(segs, sep);
        assert(j == j1 + seq![sep] + segs.last());
        assert(segs.drop_last()[0] == segs[0]);
        assert(j.subrange(0, segs[0].len() as int) =~= j1.subrange(0, segs[0].len() as int));
    }
}

} // verus!
