//! Character-level text operations: the splitting, joining, searching and
//! number conversions that the bot's parsers are built from, each stated over
//! sequences of characters.
use vstd::prelude::*;

verus! {

/// Appends one character to a string (`String::push`).
#[verifier::external_body]
pub(crate) fn push_char(s: &mut String, c: char)
    ensures
        final(s)@ == old(s)@.push(c),
{
    s.push(c);
}

/// The characters of `s`, in order.
pub fn chars_of(s: &str) -> (v: Vec<char>)
    ensures
        v@ == s@,
{
    let mut v: Vec<char> = Vec::new();
    for c in it: s.chars()
        invariant
            it.seq() == s@,
            v@ == it.seq().take(it.index() as int),
    {
        v.push(c);
    }
    v
}

/// The string made of the characters `v[from..to]`.
pub fn string_of(v: &[char], from: usize, to: usize) -> (s: String)
    requires
        from <= to <= v@.len(),
    ensures
        s@ == v@.subrange(from as int, to as int),
{
    let mut s = String::new();
    let mut i = from;
    while i < to
        invariant
            from <= i <= to <= v@.len(),
            s@ == v@.subrange(from as int, i as int),
        decreases to - i,
    {
        push_char(&mut s, v[i]);
        i = i + 1;
    }
    s
}

/// Appends the characters of `v` to `s`.
pub fn append_chars(s: &mut String, v: &[char])
    ensures
        final(s)@ == old(s)@ + v@,
{
    let mut i: usize = 0;
    while i < v.len()
        invariant
            i <= v@.len(),
            s@ == old(s)@ + v@.take(i as int),
        decreases v.len() - i,
    {
        push_char(s, v[i]);
        i = i + 1;
        assert(v@.take(i as int) == v@.take((i - 1) as int).push(v@[i - 1]));
    }
    assert(v@.take(v@.len() as int) == v@);
}

/// Whether two character sequences are equal.
pub fn chars_eq(a: &[char], b: &[char]) -> (r: bool)
    ensures
        r == (a@ == b@),
{
    if a.len() != b.len() {
        return false;
    }
    let mut i: usize = 0;
    while i < a.len()
        invariant
            a@.len() == b@.len(),
            i <= a@.len(),
            forall|j: int| 0 <= j < i ==> a@[j] == b@[j],
        decreases a.len() - i,
    {
        if a[i] != b[i] {
            return false;
        }
        i = i + 1;
    }
    assert(a@ =~= b@);
    true
}

/// Whether a string holds exactly the characters of a literal.
pub fn chars_eq_str(a: &[char], b: &str) -> (r: bool)
    ensures
        r == (a@ == b@),
{
    let bv = chars_of(b);
    chars_eq(a, bv.as_slice())
}

/// Whether `p` is a prefix of `s`.
pub fn starts_with(s: &[char], p: &[char]) -> (r: bool)
    ensures
        r == p@.is_prefix_of(s@),
{
    if p.len() > s.len() {
        return false;
    }
    let mut i: usize = 0;
    while i < p.len()
        invariant
            p@.len() <= s@.len(),
            i <= p@.len(),
            forall|j: int| 0 <= j < i ==> p@[j] == s@[j],
        decreases p.len() - i,
    {
        if p[i] != s[i] {
            return false;
        }
        i = i + 1;
    }
    true
}

/// Whether the string starts with the characters of a literal.
pub fn starts_with_str(s: &[char], p: &str) -> (r: bool)
    ensures
        r == p@.is_prefix_of(s@),
{
    let pv = chars_of(p);
    starts_with(s, pv.as_slice())
}

/// Whether the sequence is non-empty and begins with `c`.
pub open spec fn begins_with_char(s: Seq<char>, c: char) -> bool {
    s.len() > 0 && s[0] == c
}

/// Whether `p` occurs in `s` as a contiguous run.
pub open spec fn occurs_in(p: Seq<char>, s: Seq<char>) -> bool {
    exists|i: int| 0 <= i && i + p.len() <= s.len() && #[trigger] s.subrange(i, i + p.len()) == p
}

/// Whether `p` occurs in `s` (`str::contains` with a string pattern).
pub fn contains(s: &[char], p: &[char]) -> (r: bool)
    ensures
        r == occurs_in(p@, s@),
{
    if p.len() > s.len() {
        return false;
    }
    if p.len() == 0 {
        assert(s@.subrange(0int, 0int + p@.len()) =~= p@);
        return true;
    }
    let n = s.len();
    let last = n - p.len();
    let mut i: usize = 0;
    while i <= last
        invariant
            n == s@.len(),
            0 < p@.len() <= s@.len(),
            last == s@.len() - p@.len(),
            i <= last + 1,
            forall|k: int| 0 <= k < i ==> #[trigger] s@.subrange(k, k + p@.len()) != p@,
        decreases last + 1 - i,
    {
        let mut j: usize = 0;
        let mut same = true;
        while j < p.len()
            invariant
                n == s@.len(),
                0 < p@.len() <= s@.len(),
                i <= last,
                i + p@.len() <= s@.len(),
                last == s@.len() - p@.len(),
                j <= p@.len(),
                same == (forall|m: int| 0 <= m < j ==> p@[m] == s@[i + m]),
            decreases p.len() - j,
        {
            if p[j] != s[i + j] {
                same = false;
            }
            j = j + 1;
        }
        if same {
            assert(s@.subrange(i as int, i + p@.len()) =~= p@);
            return true;
        }
        assert(s@.subrange(i as int, i + p@.len()) != p@) by {
            if s@.subrange(i as int, i + p@.len()) == p@ {
                assert forall|m: int| 0 <= m < p@.len() implies p@[m] == s@[i + m] by {
                    assert(s@.subrange(i as int, i + p@.len())[m] == s@[i + m]);
                }
            }
        }
        i = i + 1;
    }
    false
}

/// Whether a literal occurs in `s`.
pub fn contains_str(s: &[char], p: &str) -> (r: bool)
    ensures
        r == occurs_in(p@, s@),
{
    let pv = chars_of(p);
    contains(s, pv.as_slice())
}

/// The pieces of `s` between the occurrences of `sep`, in order (what
/// `str::split` gives for a single-character pattern): one more piece than
/// there are separators.
pub open spec fn split_spec(s: Seq<char>, sep: char) -> Seq<Seq<char>>
    decreases s.len(),
{
    if s.len() == 0 {
        seq![Seq::<char>::empty()]
    } else {
        let p = split_spec(s.drop_last(), sep);
        if s.last() == sep {
            p.push(Seq::<char>::empty())
        } else {
            p.update(p.len() - 1, p.last().push(s.last()))
        }
    }
}

/// The pieces joined back together, with `sep` between neighbours.
pub open spec fn join_spec(ps: Seq<Seq<char>>, sep: char) -> Seq<char>
    decreases ps.len(),
{
    if ps.len() == 0 {
        Seq::<char>::empty()
    } else if ps.len() == 1 {
        ps[0]
    } else {
        join_spec(ps.drop_last(), sep).push(sep) + ps.last()
    }
}

/// Splitting always yields at least one piece.
pub proof fn lemma_split_nonempty(s: Seq<char>, sep: char)
    ensures
        split_spec(s, sep).len() >= 1,
    decreases s.len(),
{
    if s.len() > 0 {
        lemma_split_nonempty(s.drop_last(), sep);
    }
}

/// Splitting a string and joining the pieces with the same separator gives
/// the string back.
pub proof fn lemma_join_split(s: Seq<char>, sep: char)
    ensures
        join_spec(split_spec(s, sep), sep) == s,
    decreases s.len(),
{
    if s.len() > 0 {
        let t = s.drop_last();
        lemma_join_split(t, sep);
        lemma_split_nonempty(t, sep);
        let p = split_spec(t, sep);
        if s.last() == sep {
            let q = p.push(Seq::<char>::empty());
            assert(q.drop_last() =~= p);
            assert(join_spec(q, sep) =~= s);
        } else {
            let q = p.update(p.len() - 1, p.last().push(s.last()));
            if p.len() == 1 {
                assert(q[0] =~= s);
            } else {
                assert(q.drop_last() =~= p.drop_last());
                assert(q.last() == p.last().push(s.last()));
                assert(join_spec(p, sep) == join_spec(p.drop_last(), sep).push(sep) + p.last());
                assert(join_spec(q, sep) == join_spec(p.drop_last(), sep).push(sep) + p.last().push(
                    s.last(),
                ));
                assert(s =~= t.push(s.last()));
                assert(join_spec(q, sep) =~= s);
            }
        }
    }
}

/// `str::split` with a single-character pattern.
pub fn split(s: &[char], sep: char) -> (r: Vec<String>)
    ensures
        r.deep_view() == split_spec(s@, sep),
{
    let mut done: Vec<String> = Vec::new();
    let mut cur = String::new();
    let mut i: usize = 0;
    while i < s.len()
        invariant
            i <= s@.len(),
            done.deep_view().push(cur@) == split_spec(s@.take(i as int), sep),
        decreases s.len() - i,
    {
        let ghost before = done.deep_view().push(cur@);
        assert(s@.take(i + 1).drop_last() =~= s@.take(i as int));
        proof {
            lemma_split_nonempty(s@.take(i as int), sep);
        }
        if s[i] == sep {
            let piece = cur;
            done.push(piece);
            cur = String::new();
            assert(done.deep_view().push(cur@) =~= before.push(Seq::<char>::empty()));
        } else {
            push_char(&mut cur, s[i]);
            assert(done.deep_view().push(cur@) =~= before.update(
                before.len() - 1,
                before.last().push(s@[i as int]),
            ));
        }
        i = i + 1;
    }
    assert(s@.take(s@.len() as int) == s@);
    done.push(cur);
    done
}

/// Joins `ps[from..]` with `sep` between neighbours (`[..].join(":")`).
pub fn join_from(ps: &Vec<String>, from: usize, sep: char) -> (r: String)
    requires
        from <= ps@.len(),
    ensures
        r@ == join_spec(ps.deep_view().skip(from as int), sep),
{
    let mut r = String::new();
    let mut i = from;
    while i < ps.len()
        invariant
            from <= i <= ps@.len(),
            r@ == join_spec(ps.deep_view().subrange(from as int, i as int), sep),
        decreases ps.len() - i,
    {
        let ghost prev = ps.deep_view().subrange(from as int, i as int);
        let ghost next = ps.deep_view().subrange(from as int, i + 1);
        assert(next.drop_last() =~= prev);
        if i > from {
            push_char(&mut r, sep);
        } else {
            assert(next.len() == 1);
        }
        let piece = chars_of(ps[i].as_str());
        append_chars(&mut r, piece.as_slice());
        i = i + 1;
    }
    assert(ps.deep_view().subrange(from as int, ps@.len() as int) =~= ps.deep_view().skip(
        from as int,
    ));
    r
}

} // verus!

verus! {

/// What trimming a trailing `"\r\n"` again and again leaves
/// (`str::trim_end_matches("\r\n")`).
pub open spec fn trim_crlf_spec(s: Seq<char>) -> Seq<char>
    decreases s.len(),
{
    if s.len() >= 2 && s[s.len() - 2] == '\r' && s[s.len() - 1] == '\n' {
        trim_crlf_spec(s.take(s.len() - 2))
    } else {
        s
    }
}

/// The length of `s` once every trailing `"\r\n"` is cut off.
pub fn trim_crlf_len(s: &[char]) -> (end: usize)
    ensures
        end <= s@.len(),
        s@.take(end as int) == trim_crlf_spec(s@),
{
    let mut end = s.len();
    assert(s@.take(end as int) =~= s@);
    while end >= 2 && s[end - 2] == '\r' && s[end - 1] == '\n'
        invariant
            end <= s@.len(),
            trim_crlf_spec(s@.take(end as int)) == trim_crlf_spec(s@),
        decreases end,
    {
        assert(s@.take(end as int).take(end - 2) =~= s@.take(end - 2));
        end = end - 2;
    }
    end
}

/// ASCII upper-case letters become lower-case; every other character stays.
pub open spec fn lower_char(c: char) -> char {
    if 'A' <= c && c <= 'Z' {
        ((c as u32) + 32) as char
    } else {
        c
    }
}

/// `str::to_ascii_lowercase`, character by character.
pub fn ascii_lowercase(s: &[char]) -> (r: Vec<char>)
    ensures
        r@ == s@.map_values(|c: char| lower_char(c)),
{
    let mut r: Vec<char> = Vec::new();
    let mut i: usize = 0;
    while i < s.len()
        invariant
            i <= s@.len(),
            r@ == s@.take(i as int).map_values(|c: char| lower_char(c)),
        decreases s.len() - i,
    {
        let c = s[i];
        let l = if 'A' <= c && c <= 'Z' {
            let u = c as u8;
            (u + 32) as char
        } else {
            c
        };
        assert(l == lower_char(c));
        r.push(l);
        i = i + 1;
        assert(s@.take(i as int).map_values(|c: char| lower_char(c)) =~= s@.take((i - 1) as int).map_values(|c: char| lower_char(c)).push(lower_char(c)));
    }
    assert(s@.take(s@.len() as int) == s@);
    r
}

} // verus!

verus! {

/// The decimal digit character for `d` (`0 <= d < 10`).
pub open spec fn digit_char(d: int) -> char {
    (('0' as int) + d) as char
}

/// The decimal numeral of `n`, without sign or leading zeros
/// (`ToString::to_string` on an unsigned integer).
pub open spec fn decimal_spec(n: nat) -> Seq<char>
    decreases n,
{
    if n < 10 {
        seq![digit_char(n as int)]
    } else {
        decimal_spec(n / 10).push(digit_char((n % 10) as int))
    }
}

fn digit_of(d: usize) -> (c: char)
    requires
        d < 10,
    ensures
        c == digit_char(d as int),
{
    let b = d as u8;
    (b + 48) as char
}

/// The decimal numeral of `n`.
pub fn usize_to_string(n: usize) -> (r: String)
    ensures
        r@ == decimal_spec(n as nat),
{
    let mut suffix: Vec<char> = Vec::new();
    let mut rest = n;
    while rest >= 10
        invariant
            decimal_spec(n as nat) == decimal_spec(rest as nat) + suffix@,
        decreases rest,
    {
        let c = digit_of(rest % 10);
        let ghost old_suffix = suffix@;
        suffix.insert(0, c);
        assert(suffix@ =~= seq![c] + old_suffix);
        assert(decimal_spec(rest as nat) == decimal_spec((rest / 10) as nat).push(c));
        assert(decimal_spec(rest as nat) + old_suffix =~= decimal_spec((rest / 10) as nat)
            + suffix@);
        rest = rest / 10;
    }
    let c = digit_of(rest);
    let ghost old_suffix = suffix@;
    suffix.insert(0, c);
    assert(suffix@ =~= seq![c] + old_suffix);
    assert(decimal_spec(n as nat) =~= suffix@);
    string_of(suffix.as_slice(), 0, suffix.len())
}

/// Whether `c` is an ASCII decimal digit.
pub open spec fn is_digit(c: char) -> bool {
    '0' <= c && c <= '9'
}

/// The value of the digit character `c`.
pub open spec fn digit_value(c: char) -> nat {
    ((c as int) - ('0' as int)) as nat
}

/// The value of a run of decimal digits, most significant first.
pub open spec fn digits_value(d: Seq<char>) -> nat
    decreases d.len(),
{
    if d.len() == 0 {
        0
    } else {
        digits_value(d.drop_last()) * 10 + digit_value(d.last())
    }
}

/// Whether every character of `d` is a decimal digit.
pub open spec fn all_digits(d: Seq<char>) -> bool {
    forall|i: int| 0 <= i < d.len() ==> is_digit(#[trigger] d[i])
}

/// What `str::parse` gives for an unsigned integer type whose largest value
/// is `max`: an optional `+`, then one or more decimal digits whose value
/// does not exceed `max`; anything else is refused.
pub open spec fn parse_unsigned_spec(s: Seq<char>, max: nat) -> Option<nat> {
    let d = if s.len() > 0 && s[0] == '+' {
        s.drop_first()
    } else {
        s
    };
    if d.len() > 0 && all_digits(d) && digits_value(d) <= max {
        Some(digits_value(d))
    } else {
        None
    }
}

proof fn lemma_digits_value_grows(d: Seq<char>, k: int)
    requires
        0 <= k <= d.len(),
    ensures
        digits_value(d.take(k)) <= digits_value(d),
    decreases d.len() - k,
{
    if k < d.len() {
        lemma_digits_value_grows(d, k + 1);
        assert(d.take(k + 1).drop_last() =~= d.take(k));
    } else {
        assert(d.take(k) =~= d);
    }
}

/// Parses `s[from..]` as an unsigned number no larger than `max`.
pub fn parse_unsigned(s: &[char], from: usize, max: u64) -> (r: Option<u64>)
    requires
        from <= s@.len(),
    ensures
        match parse_unsigned_spec(s@.skip(from as int), max as nat) {
            Some(v) => r == Some(v as u64),
            None => r is None,
        },
{
    let ghost t = s@.skip(from as int);
    let mut start = from;
    if from < s.len() && s[from] == '+' {
        start = from + 1;
    }
    let ghost d = s@.skip(start as int);
    assert(d =~= (if t.len() > 0 && t[0] == '+' { t.drop_first() } else { t }));
    if start >= s.len() {
        return None;
    }
    let mut acc: u64 = 0;
    let mut i = start;
    while i < s.len()
        invariant
            from <= start <= i <= s@.len(),
            start < s@.len(),
            d == s@.skip(start as int),
            t == s@.skip(from as int),
            d == (if t.len() > 0 && t[0] == '+' {
                t.drop_first()
            } else {
                t
            }),
            acc as nat == digits_value(d.take(i - start)),
            acc <= max,
            all_digits(d.take(i - start)),
        decreases s.len() - i,
    {
        let c = s[i];
        assert(d.take(i + 1 - start).drop_last() =~= d.take(i - start));
        assert(d.take(i + 1 - start).last() == c);
        if !('0' <= c && c <= '9') {
            assert(!is_digit(d[i - start]));
            assert(!all_digits(d));
            return None;
        }
        let dv = (c as u32) - ('0' as u32);
        let next: u128 = (acc as u128) * 10 + (dv as u128);
        assert(dv as nat == digit_value(c));
        assert(next == digits_value(d.take(i + 1 - start)));
        if next > max as u128 {
            proof {
                lemma_digits_value_grows(d, i + 1 - start);
            }
            assert(digits_value(d) > max);
            return None;
        }
        acc = next as u64;
        i = i + 1;
        assert forall|j: int| 0 <= j < d.take(i - start).len() implies is_digit(
            #[trigger] d.take(i - start)[j],
        ) by {
            if j < i - 1 - start {
                assert(d.take(i - start)[j] == d.take(i - 1 - start)[j]);
            }
        }
    }
    assert(d.take(i - start) =~= d);
    Some(acc)
}

} // verus!

verus! {

/// The position of the first `c` in `s`, or the length of `s` when there is
/// none.
pub open spec fn index_of(s: Seq<char>, c: char) -> nat
    decreases s.len(),
{
    if s.len() == 0 {
        0
    } else if s[0] == c {
        0
    } else {
        1 + index_of(s.drop_first(), c)
    }
}

/// `index_of` is the first position holding `c`.
pub proof fn lemma_index_of(s: Seq<char>, c: char, i: int)
    requires
        0 <= i <= s.len(),
        forall|j: int| 0 <= j < i ==> s[j] != c,
        i == s.len() || s[i] == c,
    ensures
        index_of(s, c) == i,
    decreases i,
{
    if i > 0 {
        let t = s.drop_first();
        assert forall|j: int| 0 <= j < i - 1 implies t[j] != c by {
            assert(t[j] == s[j + 1]);
        }
        if i < s.len() {
            assert(t[i - 1] == s[i]);
        }
        lemma_index_of(t, c, i - 1);
    }
}

/// `index_of` never passes the end of the sequence.
pub proof fn lemma_index_of_bound(s: Seq<char>, c: char)
    ensures
        index_of(s, c) <= s.len(),
        index_of(s, c) < s.len() ==> s[index_of(s, c) as int] == c,
        forall|j: int| 0 <= j < index_of(s, c) ==> s[j] != c,
    decreases s.len(),
{
    if s.len() > 0 && s[0] != c {
        let t = s.drop_first();
        lemma_index_of_bound(t, c);
        assert forall|j: int| 0 <= j < index_of(s, c) implies s[j] != c by {
            if j > 0 {
                assert(s[j] == t[j - 1]);
            }
        }
    }
}

/// The position of the first `c` in `v[from..]`, counted from `from`.
pub fn find_char(v: &[char], from: usize, c: char) -> (r: usize)
    requires
        from <= v@.len(),
    ensures
        r == index_of(v@.skip(from as int), c),
        from + r <= v@.len(),
{
    let mut i = from;
    while i < v.len() && v[i] != c
        invariant
            from <= i <= v@.len(),
            forall|j: int| from <= j < i ==> v@[j] != c,
        decreases v.len() - i,
    {
        i = i + 1;
    }
    proof {
        let t = v@.skip(from as int);
        assert forall|j: int| 0 <= j < i - from implies t[j] != c by {
            assert(t[j] == v@[from + j]);
        }
        if i < v@.len() {
            assert(t[i - from] == v@[i as int]);
        }
        lemma_index_of(t, c, i - from);
    }
    i - from
}

/// `s` with every `c` removed (`str::replace(c, "")`).
pub open spec fn remove_all(s: Seq<char>, c: char) -> Seq<char>
    decreases s.len(),
{
    if s.len() == 0 {
        s
    } else if s.last() == c {
        remove_all(s.drop_last(), c)
    } else {
        remove_all(s.drop_last(), c).push(s.last())
    }
}

/// The string `v[from..to]` with every `c` removed.
pub fn string_without(v: &[char], from: usize, to: usize, c: char) -> (s: String)
    requires
        from <= to <= v@.len(),
    ensures
        s@ == remove_all(v@.subrange(from as int, to as int), c),
{
    let mut s = String::new();
    let mut i = from;
    while i < to
        invariant
            from <= i <= to <= v@.len(),
            s@ == remove_all(v@.subrange(from as int, i as int), c),
        decreases to - i,
    {
        assert(v@.subrange(from as int, i + 1).drop_last() =~= v@.subrange(from as int, i as int));
        if v[i] != c {
            push_char(&mut s, v[i]);
        }
        i = i + 1;
    }
    s
}

} // verus!
