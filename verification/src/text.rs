//! Character-level text helpers, each specified over `Seq<char>`.
use vstd::prelude::*;

verus! {

// ---------------------------------------------------------------------------
// Conversions between `str`/`String` and character sequences
// ---------------------------------------------------------------------------

/// The characters of an optional string.
pub open spec fn opt_view(o: Option<String>) -> Option<Seq<char>> {
    match o {
        Some(s) => Some(s@),
        None => None,
    }
}

/// The characters of `s`, in order.
pub fn chars_of(s: &str) -> (r: Vec<char>)
    ensures
        r@ == s@,
{
    let mut r: Vec<char> = Vec::new();
    for c in it: s.chars()
        invariant
            r@ == it.seq().take(it.index() as int),
    {
        r.push(c);
    }
    r
}

/// `String::push`: afterwards the string holds its old characters followed by `c`.
#[verifier::external_body]
pub(crate) fn push_char(s: &mut String, c: char)
    ensures
        final(s)@ == old(s)@.push(c),
{
    s.push(c);
}

/// An owned copy of `s`.
pub fn owned(s: &str) -> (r: String)
    ensures
        r@ == s@,
{
    let mut r = String::new();
    push_str(&mut r, s);
    r
}

/// Appends `t` to `s`.
pub fn push_str(s: &mut String, t: &str)
    ensures
        final(s)@ == old(s)@ + t@,
{
    let cs = chars_of(t);
    push_chars(s, &cs, 0, cs.len());
}

/// Appends `cs[from..to]` to `s`.
pub fn push_chars(s: &mut String, cs: &Vec<char>, from: usize, to: usize)
    requires
        from <= to <= cs.len(),
    ensures
        final(s)@ == old(s)@ + cs@.subrange(from as int, to as int),
{
    let mut i = from;
    while i < to
        invariant
            from <= i <= to <= cs.len(),
            s@ == old(s)@ + cs@.subrange(from as int, i as int),
        decreases to - i,
    {
        push_char(s, cs[i]);
        assert(cs@.subrange(from as int, i + 1) == cs@.subrange(from as int, i as int).push(
            cs@[i as int],
        ));
        i = i + 1;
    }
}

/// A `String` holding `cs[from..to]`.
pub fn string_from(cs: &Vec<char>, from: usize, to: usize) -> (r: String)
    requires
        from <= to <= cs.len(),
    ensures
        r@ == cs@.subrange(from as int, to as int),
{
    let mut r = String::new();
    push_chars(&mut r, cs, from, to);
    r
}

/// The concatenation of `a` and `b`.
pub fn concat(a: &str, b: &str) -> (r: String)
    ensures
        r@ == a@ + b@,
{
    let mut r = owned(a);
    push_str(&mut r, b);
    r
}

/// The concatenation of `a`, `b` and `c`.
pub fn concat3(a: &str, b: &str, c: &str) -> (r: String)
    ensures
        r@ == a@ + b@ + c@,
{
    let mut r = owned(a);
    push_str(&mut r, b);
    push_str(&mut r, c);
    r
}

/// Whether two strings hold the same characters.
pub fn str_eq(a: &str, b: &str) -> (r: bool)
    ensures
        r == (a@ == b@),
{
    let x = chars_of(a);
    let y = chars_of(b);
    if x.len() != y.len() {
        return false;
    }
    let mut i: usize = 0;
    while i < x.len()
        invariant
            x@ == a@,
            y@ == b@,
            x.len() == y.len(),
            i <= x.len(),
            forall|j: int| 0 <= j < i ==> x@[j] == y@[j],
        decreases x.len() - i,
    {
        if x[i] != y[i] {
            return false;
        }
        i = i + 1;
    }
    assert(x@ =~= y@);
    true
}

// ---------------------------------------------------------------------------
// Numbers as text
// ---------------------------------------------------------------------------

/// Lower-case digit for a value below sixteen.
pub open spec fn digit_char(d: nat) -> char {
    if d < 10 {
        (d + 48) as char
    } else {
        (d + 87) as char
    }
}

/// Decimal representation of `n`, without leading zeros.
pub open spec fn decimal(n: nat) -> Seq<char>
    decreases n,
{
    if n < 10 {
        seq![digit_char(n)]
    } else {
        decimal(n / 10) + seq![digit_char(n % 10)]
    }
}

/// Lower-case hexadecimal representation of `n`, without leading zeros.
pub open spec fn hex_lower(n: nat) -> Seq<char>
    decreases n,
{
    if n < 16 {
        seq![digit_char(n)]
    } else {
        hex_lower(n / 16) + seq![digit_char(n % 16)]
    }
}

/// Two digits below 16 that give the same character are the same digit.
proof fn lemma_digit_char_injective(a: nat, b: nat)
    requires
        a < 16,
        b < 16,
        digit_char(a) == digit_char(b),
    ensures
        a == b,
{
    assert((digit_char(a) as int) == if a < 10 { a + 48 } else { a + 87 });
    assert((digit_char(b) as int) == if b < 10 { b + 48 } else { b + 87 });
}

/// A hexadecimal representation has at least one digit.
proof fn lemma_hex_lower_nonempty(n: nat)
    ensures
        hex_lower(n).len() >= 1,
    decreases n,
{
    if n >= 16 {
        lemma_hex_lower_nonempty(n / 16);
    }
}

/// Different numbers have different hexadecimal representations.
pub proof fn lemma_hex_lower_injective(a: nat, b: nat)
    requires
        hex_lower(a) == hex_lower(b),
    ensures
        a == b,
    decreases a,
{
    if a < 16 && b < 16 {
        assert(hex_lower(a)[0] == digit_char(a));
        assert(hex_lower(b)[0] == digit_char(b));
        lemma_digit_char_injective(a, b);
    } else if a < 16 {
        lemma_hex_lower_nonempty(b / 16);
        assert(hex_lower(b).len() >= 2);
    } else if b < 16 {
        lemma_hex_lower_nonempty(a / 16);
        assert(hex_lower(a).len() >= 2);
    } else {
        let ha = hex_lower(a);
        let hb = hex_lower(b);
        assert(ha.last() == digit_char(a % 16));
        assert(hb.last() == digit_char(b % 16));
        lemma_digit_char_injective(a % 16, b % 16);
        assert(hex_lower(a / 16) =~= ha.drop_last());
        assert(hex_lower(b / 16) =~= hb.drop_last());
        lemma_hex_lower_injective(a / 16, b / 16);
    }
}

fn digit(d: u8) -> (c: char)
    requires
        d < 16,
    ensures
        c == digit_char(d as nat),
{
    if d < 10 {
        (d + 48) as char
    } else {
        (d + 87) as char
    }
}

/// Appends the decimal representation of `n` to `s`.
pub fn push_decimal(s: &mut String, n: u64)
    ensures
        final(s)@ == old(s)@ + decimal(n as nat),
    decreases n,
{
    if n >= 10 {
        push_decimal(s, n / 10);
    }
    push_char(s, digit((n % 10) as u8));
}

/// Appends the lower-case hexadecimal representation of `n` to `s`.
pub fn push_hex(s: &mut String, n: u128)
    ensures
        final(s)@ == old(s)@ + hex_lower(n as nat),
    decreases n,
{
    if n >= 16 {
        push_hex(s, n / 16);
    }
    push_char(s, digit((n % 16) as u8));
}

/// The decimal representation of `n`.
pub fn decimal_string(n: u64) -> (r: String)
    ensures
        r@ == decimal(n as nat),
{
    let mut r = String::new();
    push_decimal(&mut r, n);
    r
}

// ---------------------------------------------------------------------------
// Whitespace and trimming
// ---------------------------------------------------------------------------

/// The Unicode `White_Space` property, the set that `char::is_whitespace` tests.
pub open spec fn is_ws(c: char) -> bool {
    let u = c as u32;
    ||| 0x09 <= u <= 0x0d
    ||| u == 0x20
    ||| u == 0x85
    ||| u == 0xa0
    ||| u == 0x1680
    ||| 0x2000 <= u <= 0x200a
    ||| u == 0x2028
    ||| u == 0x2029
    ||| u == 0x202f
    ||| u == 0x205f
    ||| u == 0x3000
}

/// Whether `c` is white space.
pub fn is_whitespace(c: char) -> (r: bool)
    ensures
        r == is_ws(c),
{
    let u = c as u32;
    (0x09 <= u && u <= 0x0d) || u == 0x20 || u == 0x85 || u == 0xa0 || u == 0x1680 || (0x2000
        <= u && u <= 0x200a) || u == 0x2028 || u == 0x2029 || u == 0x202f || u == 0x205f || u
        == 0x3000
}

/// `s` without its leading white space.
pub open spec fn trim_start(s: Seq<char>) -> Seq<char>
    decreases s.len(),
{
    if s.len() > 0 && is_ws(s[0]) {
        trim_start(s.drop_first())
    } else {
        s
    }
}

/// `s` without its trailing white space.
pub open spec fn trim_end(s: Seq<char>) -> Seq<char>
    decreases s.len(),
{
    if s.len() > 0 && is_ws(s.last()) {
        trim_end(s.drop_last())
    } else {
        s
    }
}

/// `s` without leading and trailing white space (`str::trim`).
pub open spec fn trim(s: Seq<char>) -> Seq<char> {
    trim_end(trim_start(s))
}

/// Every character of `s` is white space.
pub open spec fn all_ws(s: Seq<char>) -> bool {
    forall|i: int| 0 <= i < s.len() ==> is_ws(#[trigger] s[i])
}

proof fn lemma_trim_start_skip(s: Seq<char>, i: int)
    requires
        0 <= i <= s.len(),
        forall|j: int| 0 <= j < i ==> is_ws(#[trigger] s[j]),
    ensures
        trim_start(s) == trim_start(s.subrange(i, s.len() as int)),
    decreases i,
{
    if i > 0 {
        assert(s.drop_first().subrange(i - 1, s.drop_first().len() as int) =~= s.subrange(
            i,
            s.len() as int,
        ));
        lemma_trim_start_skip(s.drop_first(), i - 1);
    } else {
        assert(s.subrange(0, s.len() as int) =~= s);
    }
}

proof fn lemma_trim_end_cut(s: Seq<char>, j: int)
    requires
        0 <= j <= s.len(),
        forall|k: int| j <= k < s.len() ==> is_ws(#[trigger] s[k]),
    ensures
        trim_end(s) == trim_end(s.subrange(0, j)),
    decreases s.len() - j,
{
    if j < s.len() {
        assert(s.drop_last().subrange(0, j) =~= s.subrange(0, j));
        lemma_trim_end_cut(s.drop_last(), j);
    } else {
        assert(s.subrange(0, j) =~= s);
    }
}

/// Bounds `(start, end)` of `trim(cs)` inside `cs`.
pub fn trim_bounds(cs: &Vec<char>) -> (r: (usize, usize))
    ensures
        r.0 <= r.1 <= cs.len(),
        cs@.subrange(r.0 as int, r.1 as int) == trim(cs@),
{
    let mut i: usize = 0;
    while i < cs.len() && is_whitespace(cs[i])
        invariant
            i <= cs.len(),
            forall|k: int| 0 <= k < i ==> is_ws(#[trigger] cs@[k]),
        decreases cs.len() - i,
    {
        i = i + 1;
    }
    proof {
        lemma_trim_start_skip(cs@, i as int);
    }
    let ghost rest = cs@.subrange(i as int, cs.len() as int);
    assert(trim_start(rest) == rest);
    let mut j: usize = cs.len();
    while j > i && is_whitespace(cs[j - 1])
        invariant
            i <= j <= cs.len(),
            rest == cs@.subrange(i as int, cs.len() as int),
            forall|k: int| j <= k < cs.len() ==> is_ws(#[trigger] cs@[k]),
        decreases j,
    {
        j = j - 1;
    }
    proof {
        assert forall|k: int| (j - i) <= k < rest.len() implies is_ws(#[trigger] rest[k]) by {
            assert(rest[k] == cs@[k + i]);
        }
        lemma_trim_end_cut(rest, j - i);
        assert(rest.subrange(0, j - i) =~= cs@.subrange(i as int, j as int));
        if j > i {
            assert(!is_ws(cs@[j - 1]));
            assert(rest.subrange(0, j - i).last() == cs@[j - 1]);
        } else {
            assert(cs@.subrange(i as int, j as int).len() == 0);
        }
    }
    (i, j)
}

/// `s` without leading and trailing white space.
pub fn trimmed(s: &str) -> (r: String)
    ensures
        r@ == trim(s@),
{
    let cs = chars_of(s);
    let (a, b) = trim_bounds(&cs);
    string_from(&cs, a, b)
}

proof fn lemma_trim_empty_iff_all_ws(s: Seq<char>)
    ensures
        (trim(s).len() == 0) == all_ws(s),
    decreases s.len(),
{
    if s.len() > 0 && is_ws(s[0]) {
        lemma_trim_empty_iff_all_ws(s.drop_first());
        if all_ws(s.drop_first()) {
            assert forall|i: int| 0 <= i < s.len() implies is_ws(#[trigger] s[i]) by {
                if i > 0 {
                    assert(s[i] == s.drop_first()[i - 1]);
                }
            }
        } else {
            let k = choose|k: int| 0 <= k < s.drop_first().len() && !is_ws(s.drop_first()[k]);
            assert(s[k + 1] == s.drop_first()[k]);
        }
    } else if s.len() > 0 {
        lemma_trim_end_keeps_nonempty(s);
    } else {
        assert(trim_start(s) == s);
    }
}

proof fn lemma_trim_end_keeps_nonempty(s: Seq<char>)
    requires
        s.len() > 0,
        !is_ws(s[0]),
    ensures
        trim_end(s).len() > 0,
    decreases s.len(),
{
    if is_ws(s.last()) {
        assert(s.len() > 1);
        assert(s.drop_last()[0] == s[0]);
        lemma_trim_end_keeps_nonempty(s.drop_last());
    }
}

/// Whether `s` holds nothing but white space (`s.trim().is_empty()`).
pub fn is_blank(s: &str) -> (r: bool)
    ensures
        r == all_ws(s@),
        r == (trim(s@).len() == 0),
{
    proof {
        lemma_trim_empty_iff_all_ws(s@);
    }
    let cs = chars_of(s);
    let (a, b) = trim_bounds(&cs);
    a == b
}

// ---------------------------------------------------------------------------
// Prefixes, replacement and splitting
// ---------------------------------------------------------------------------

/// `p` is a prefix of `s`.
pub open spec fn has_prefix(s: Seq<char>, p: Seq<char>) -> bool {
    p.len() <= s.len() && s.subrange(0, p.len() as int) == p
}

/// Whether `p` is a prefix of `cs[at..]`.
pub fn prefix_at(cs: &Vec<char>, at: usize, p: &Vec<char>) -> (r: bool)
    requires
        at <= cs.len(),
    ensures
        r == has_prefix(cs@.subrange(at as int, cs.len() as int), p@),
{
    let ghost rest = cs@.subrange(at as int, cs.len() as int);
    if p.len() > cs.len() - at {
        return false;
    }
    let mut i: usize = 0;
    while i < p.len()
        invariant
            at + p.len() <= cs.len(),
            rest == cs@.subrange(at as int, cs.len() as int),
            i <= p.len(),
            forall|k: int| 0 <= k < i ==> cs@[at + k] == p@[k],
        decreases p.len() - i,
    {
        if cs[at + i] != p[i] {
            assert(rest.subrange(0, p.len() as int)[i as int] != p@[i as int]);
            return false;
        }
        i = i + 1;
    }
    assert(rest.subrange(0, p.len() as int) =~= p@);
    true
}

/// Whether `s` starts with `p` (`str::starts_with`).
pub fn starts_with(s: &str, p: &str) -> (r: bool)
    ensures
        r == has_prefix(s@, p@),
{
    let cs = chars_of(s);
    let ps = chars_of(p);
    assert(cs@.subrange(0, cs@.len() as int) =~= cs@);
    prefix_at(&cs, 0, &ps)
}

/// `s` with every leading copy of the non-empty `p` removed (`str::trim_start_matches`).
pub open spec fn strip_prefixes(s: Seq<char>, p: Seq<char>) -> Seq<char>
    decreases s.len(),
{
    if p.len() > 0 && has_prefix(s, p) {
        strip_prefixes(s.subrange(p.len() as int, s.len() as int), p)
    } else {
        s
    }
}

/// Index in `cs` after removing every leading copy of `p` from `cs[from..]`.
pub fn skip_prefixes(cs: &Vec<char>, from: usize, p: &Vec<char>) -> (r: usize)
    requires
        from <= cs.len(),
    ensures
        from <= r <= cs.len(),
        cs@.subrange(r as int, cs.len() as int) == strip_prefixes(
            cs@.subrange(from as int, cs.len() as int),
            p@,
        ),
{
    let mut i = from;
    while p.len() > 0 && prefix_at(cs, i, p)
        invariant
            from <= i <= cs.len(),
            strip_prefixes(cs@.subrange(i as int, cs.len() as int), p@) == strip_prefixes(
                cs@.subrange(from as int, cs.len() as int),
                p@,
            ),
        decreases cs.len() - i,
    {
        let ghost rest = cs@.subrange(i as int, cs.len() as int);
        assert(rest.subrange(p.len() as int, rest.len() as int) =~= cs@.subrange(
            i + p.len(),
            cs.len() as int,
        ));
        i = i + p.len();
    }
    i
}

/// `s` with every non-overlapping occurrence of the non-empty `pat`, scanned
/// from the left, replaced by `rep` (`str::replace`).
pub open spec fn replace_all(s: Seq<char>, pat: Seq<char>, rep: Seq<char>) -> Seq<char>
    decreases s.len(),
{
    if pat.len() == 0 || s.len() == 0 {
        s
    } else if has_prefix(s, pat) {
        rep + replace_all(s.subrange(pat.len() as int, s.len() as int), pat, rep)
    } else {
        seq![s[0]] + replace_all(s.drop_first(), pat, rep)
    }
}

/// `s` with every occurrence of the non-empty `pat` replaced by `rep`.
pub fn replace(s: &str, pat: &str, rep: &str) -> (r: String)
    requires
        pat@.len() > 0,
    ensures
        r@ == replace_all(s@, pat@, rep@),
{
    let cs = chars_of(s);
    let ps = chars_of(pat);
    let mut r = String::new();
    let mut i: usize = 0;
    assert(cs@.subrange(0, cs.len() as int) =~= cs@);
    assert(r@ + replace_all(cs@, pat@, rep@) =~= replace_all(cs@, pat@, rep@));
    while i < cs.len()
        invariant
            cs@ == s@,
            ps@ == pat@,
            ps.len() > 0,
            i <= cs.len(),
            r@ + replace_all(cs@.subrange(i as int, cs.len() as int), pat@, rep@) == replace_all(
                s@,
                pat@,
                rep@,
            ),
        decreases cs.len() - i,
    {
        let ghost rest = cs@.subrange(i as int, cs.len() as int);
        if prefix_at(&cs, i, &ps) {
            assert(rest.subrange(ps.len() as int, rest.len() as int) =~= cs@.subrange(
                i + ps.len(),
                cs.len() as int,
            ));
            push_str(&mut r, rep);
            i = i + ps.len();
        } else {
            assert(rest.drop_first() =~= cs@.subrange(i + 1, cs.len() as int));
            push_char(&mut r, cs[i]);
            i = i + 1;
        }
    }
    assert(cs@.subrange(i as int, cs.len() as int).len() == 0);
    r
}

/// The pieces of `rest` separated by `sep`, the first of them continuing `cur`.
pub open spec fn split_from(cur: Seq<char>, rest: Seq<char>, sep: char) -> Seq<Seq<char>>
    decreases rest.len(),
{
    if rest.len() == 0 {
        seq![cur]
    } else if rest[0] == sep {
        seq![cur] + split_from(Seq::empty(), rest.drop_first(), sep)
    } else {
        split_from(cur.push(rest[0]), rest.drop_first(), sep)
    }
}

/// The pieces of `s` separated by `sep` (`str::split` on a character); never empty.
pub open spec fn split_on(s: Seq<char>, sep: char) -> Seq<Seq<char>> {
    split_from(Seq::empty(), s, sep)
}

/// The character views of a sequence of strings.
pub open spec fn views(v: Seq<String>) -> Seq<Seq<char>> {
    v.map_values(|x: String| x@)
}

proof fn lemma_split_from_nonempty(cur: Seq<char>, rest: Seq<char>, sep: char)
    ensures
        split_from(cur, rest, sep).len() >= 1,
    decreases rest.len(),
{
    if rest.len() > 0 {
        if rest[0] == sep {
            lemma_split_from_nonempty(Seq::empty(), rest.drop_first(), sep);
        } else {
            lemma_split_from_nonempty(cur.push(rest[0]), rest.drop_first(), sep);
        }
    }
}

/// The pieces of `s` separated by `sep`.
pub fn split(s: &str, sep: char) -> (r: Vec<String>)
    ensures
        views(r@) == split_on(s@, sep),
        r.len() >= 1,
{
    proof {
        lemma_split_from_nonempty(Seq::empty(), s@, sep);
    }
    let cs = chars_of(s);
    let mut parts: Vec<String> = Vec::new();
    let mut cur = String::new();
    let mut i: usize = 0;
    assert(cs@.subrange(0, cs.len() as int) =~= cs@);
    assert(views(parts@) =~= Seq::<Seq<char>>::empty());
    assert(views(parts@) + split_on(s@, sep) =~= split_on(s@, sep));
    while i < cs.len()
        invariant
            cs@ == s@,
            i <= cs.len(),
            views(parts@) + split_from(cur@, cs@.subrange(i as int, cs.len() as int), sep)
                == split_on(s@, sep),
        decreases cs.len() - i,
    {
        let ghost rest = cs@.subrange(i as int, cs.len() as int);
        assert(rest.drop_first() =~= cs@.subrange(i + 1, cs.len() as int));
        if cs[i] == sep {
            let piece = cur;
            cur = String::new();
            let ghost before = parts@;
            parts.push(piece);
            assert(views(parts@) =~= views(before) + seq![piece@]);
            assert(views(parts@) + split_from(cur@, rest.drop_first(), sep) =~= views(before)
                + split_from(piece@, rest, sep));
        } else {
            push_char(&mut cur, cs[i]);
        }
        i = i + 1;
    }
    let ghost before = parts@;
    parts.push(cur);
    assert(views(parts@) =~= views(before) + seq![cur@]);
    assert(cs@.subrange(i as int, cs.len() as int).len() == 0);
    parts
}

// ---------------------------------------------------------------------------
// Case
// ---------------------------------------------------------------------------

/// ASCII lower-casing of one character; every other character is kept.
pub open spec fn ascii_lower(c: char) -> char {
    if 'A' <= c && c <= 'Z' {
        ((c as u32) + 32) as char
    } else {
        c
    }
}

/// `a` and `b` are equal up to ASCII case (`str::eq_ignore_ascii_case`).
pub open spec fn eq_ascii_ci(a: Seq<char>, b: Seq<char>) -> bool {
    a.len() == b.len() && forall|i: int| 0 <= i < a.len() ==> ascii_lower(#[trigger] a[i])
        == ascii_lower(b[i])
}

fn lower_ascii(c: char) -> (r: char)
    ensures
        r == ascii_lower(c),
{
    if 'A' <= c && c <= 'Z' {
        ((c as u8) + 32) as char
    } else {
        c
    }
}

/// Whether `a` and `b` are equal up to ASCII case.
pub fn eq_ignore_ascii_case(a: &str, b: &str) -> (r: bool)
    ensures
        r == eq_ascii_ci(a@, b@),
{
    let x = chars_of(a);
    let y = chars_of(b);
    if x.len() != y.len() {
        return false;
    }
    let mut i: usize = 0;
    while i < x.len()
        invariant
            x@ == a@,
            y@ == b@,
            x.len() == y.len(),
            i <= x.len(),
            forall|j: int| 0 <= j < i ==> ascii_lower(#[trigger] x@[j]) == ascii_lower(y@[j]),
        decreases x.len() - i,
    {
        if lower_ascii(x[i]) != lower_ascii(y[i]) {
            return false;
        }
        i = i + 1;
    }
    true
}

/// The Unicode lower-case mapping of a string, as `str::to_lowercase` computes it.
pub uninterp spec fn unicode_lowercase(s: Seq<char>) -> Seq<char>;

/// `str::to_lowercase`: the result is the Unicode lower-case mapping of `s`,
/// which depends on `s` alone and is named, not stated: the Unicode tables
/// it follows are left unsaid. What is stated is the ASCII part of those
/// tables: on a string of ASCII characters only `A`..=`Z` change, each to its
/// lower-case letter.
#[verifier::external_body]
pub(crate) fn to_lowercase(s: &str) -> (r: String)
    ensures
        r@ == unicode_lowercase(s@),
        vstd::utf8::is_ascii_chars(s@) ==> r@ == s@.map_values(|c: char| ascii_lower(c)),
{
    s.to_lowercase()
}

} // verus!
