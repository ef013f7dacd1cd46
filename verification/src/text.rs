use vstd::prelude::*;

verus! {

/// The characters of `s`, in order.
pub fn chars_of(s: &str) -> (v: Vec<char>)
    ensures
        v@ == s@,
{
    let mut v: Vec<char> = Vec::new();
    for c in it: s.chars()
        invariant
            v@ == it.seq().take(it.index() as int),
    {
        v.push(c);
    }
    v
}

/// An owned copy of the characters `from..to` of `s`.
pub fn slice_to_string(s: &str, from: usize, to: usize) -> (r: String)
    requires
        from <= to <= s@.len(),
    ensures
        r@ == s@.subrange(from as int, to as int),
{
    s.substring_char(from, to).to_owned()
}

/// Unicode `White_Space`: the characters that `char::is_whitespace` accepts.
pub open spec fn is_white_space(c: char) -> bool {
    let u = c as u32;
    ||| 0x9 <= u <= 0xd
    ||| u == 0x20
    ||| u == 0x85
    ||| u == 0xa0
    ||| u == 0x1680
    ||| 0x2000 <= u <= 0x200a
    ||| u == 0x2028
    ||| u == 0x2029
    ||| u == 0x202f
    ||| u == 0x205f
    ||| u == 0x3000
}

pub fn white_space(c: char) -> (b: bool)
    ensures
        b == is_white_space(c),
{
    let u = c as u32;
    (0x9 <= u && u <= 0xd) || u == 0x20 || u == 0x85 || u == 0xa0 || u == 0x1680 || (0x2000
        <= u && u <= 0x200a) || u == 0x2028 || u == 0x2029 || u == 0x202f || u == 0x205f || u
        == 0x3000
}

/// `s` without its leading white space.
pub open spec fn trim_start(s: Seq<char>) -> Seq<char>
    decreases s.len(),
{
    if s.len() > 0 && is_white_space(s[0]) {
        trim_start(s.drop_first())
    } else {
        s
    }
}

/// `s` without its trailing white space.
pub open spec fn trim_end(s: Seq<char>) -> Seq<char>
    decreases s.len(),
{
    if s.len() > 0 && is_white_space(s.last()) {
        trim_end(s.drop_last())
    } else {
        s
    }
}

/// `s` without leading and trailing white space, as `str::trim` gives it.
pub open spec fn trimmed(s: Seq<char>) -> Seq<char> {
    trim_end(trim_start(s))
}

proof fn lemma_trim_start_first(s: Seq<char>)
    ensures
        trim_start(s).len() > 0 ==> !is_white_space(trim_start(s)[0]),
    decreases s.len(),
{
    if s.len() > 0 && is_white_space(s[0]) {
        lemma_trim_start_first(s.drop_first());
    }
}

proof fn lemma_trim_end_last(s: Seq<char>)
    ensures
        trim_end(s).len() > 0 ==> !is_white_space(trim_end(s).last()),
    decreases s.len(),
{
    if s.len() > 0 && is_white_space(s.last()) {
        lemma_trim_end_last(s.drop_last());
    }
}

proof fn lemma_trim_end_prefix(s: Seq<char>)
    ensures
        trim_end(s).len() <= s.len(),
        trim_end(s) =~= s.take(trim_end(s).len() as int),
    decreases s.len(),
{
    if s.len() > 0 && is_white_space(s.last()) {
        lemma_trim_end_prefix(s.drop_last());
        assert(s.drop_last().take(trim_end(s).len() as int) =~= s.take(trim_end(s).len() as int));
    } else {
        assert(s.take(s.len() as int) =~= s);
    }
}

/// Trimming twice gives what trimming once gives: a trimmed text has no
/// white space at either end.
pub proof fn lemma_trimmed_idempotent(s: Seq<char>)
    ensures
        trimmed(trimmed(s)) == trimmed(s),
        trimmed(s).len() > 0 ==> !is_white_space(trimmed(s)[0]) && !is_white_space(
            trimmed(s).last(),
        ),
{
    let a = trim_start(s);
    let t = trim_end(a);
    lemma_trim_start_first(s);
    lemma_trim_end_last(a);
    lemma_trim_end_prefix(a);
    if t.len() > 0 {
        assert(t[0] == a[0]);
        assert(trim_start(t) == t);
        assert(trim_end(t) == t);
    } else {
        assert(trim_start(t) == t);
    }
}

/// `s` without leading and trailing white space (`str::trim`).
pub fn trim(s: &str) -> (r: String)
    ensures
        r@ == trimmed(s@),
{
    let v = chars_of(s);
    let n = v.len();
    let mut i: usize = 0;
    assert(s@.subrange(0, n as int) =~= s@);
    while i < n && white_space(v[i])
        invariant
            v@ == s@,
            n == v.len(),
            i <= n,
            trim_start(s@) == trim_start(s@.subrange(i as int, n as int)),
        decreases n - i,
    {
        assert(s@.subrange(i as int, n as int).drop_first() =~= s@.subrange(i + 1, n as int));
        i = i + 1;
    }
    let ghost t = s@.subrange(i as int, n as int);
    assert(trim_start(s@) == t) by {
        if i == n {
            assert(t.len() == 0);
        }
    }
    let mut j: usize = n;
    assert(t =~= s@.subrange(i as int, j as int));
    while j > i && white_space(v[j - 1])
        invariant
            v@ == s@,
            n == v.len(),
            i <= j <= n,
            trim_end(t) == trim_end(s@.subrange(i as int, j as int)),
        decreases j - i,
    {
        assert(s@.subrange(i as int, j as int).drop_last() =~= s@.subrange(i as int, j - 1));
        j = j - 1;
    }
    slice_to_string(s, i, j)
}


/// The pieces of `s` between occurrences of `sep`, as `str::split` gives them
/// for a one-character pattern: `k` separators give `k + 1` pieces.
pub open spec fn split_on(s: Seq<char>, sep: char) -> Seq<Seq<char>>
    decreases s.len(),
{
    if s.len() == 0 {
        seq![Seq::<char>::empty()]
    } else if s.last() == sep {
        split_on(s.drop_last(), sep).push(Seq::<char>::empty())
    } else {
        let r = split_on(s.drop_last(), sep);
        r.update(r.len() - 1, r.last().push(s.last()))
    }
}

pub proof fn lemma_split_nonempty(s: Seq<char>, sep: char)
    ensures
        split_on(s, sep).len() >= 1,
    decreases s.len(),
{
    if s.len() > 0 {
        lemma_split_nonempty(s.drop_last(), sep);
    }
}

/// The views of a list of strings.
pub open spec fn views(v: Seq<String>) -> Seq<Seq<char>> {
    v.map_values(|x: String| x@)
}

/// `s` split at every `sep` (`str::split` with a `char` pattern).
pub fn split_char(s: &str, sep: char) -> (r: Vec<String>)
    ensures
        views(r@) == split_on(s@, sep),
{
    let v = chars_of(s);
    let n = v.len();
    let mut pieces: Vec<String> = Vec::new();
    let mut start: usize = 0;
    let mut i: usize = 0;
    assert(views(pieces@) =~= Seq::<Seq<char>>::empty());
    assert(s@.subrange(0, 0) =~= Seq::<char>::empty());
    assert(views(pieces@).push(s@.subrange(0, 0)) =~= seq![Seq::<char>::empty()]);
    assert(s@.take(0) =~= Seq::<char>::empty());
    while i < n
        invariant
            v@ == s@,
            n == v.len(),
            start <= i <= n,
            views(pieces@).push(s@.subrange(start as int, i as int)) == split_on(
                s@.take(i as int),
                sep,
            ),
        decreases n - i,
    {
        let ghost prev = s@.take(i as int);
        assert(s@.take(i + 1).drop_last() =~= prev);
        assert(s@.take(i + 1).last() == v@[i as int]);
        proof {
            lemma_split_nonempty(prev, sep);
        }
        if v[i] == sep {
            let piece = slice_to_string(s, start, i);
            let ghost old_views = views(pieces@);
            pieces.push(piece);
            assert(views(pieces@) =~= old_views.push(s@.subrange(start as int, i as int)));
            start = i + 1;
            assert(s@.subrange(start as int, i + 1) =~= Seq::<char>::empty());
            assert(views(pieces@).push(s@.subrange(start as int, i + 1)) =~= split_on(
                prev,
                sep,
            ).push(Seq::<char>::empty()));
        } else {
            let ghost r = split_on(prev, sep);
            assert(s@.subrange(start as int, i + 1) =~= s@.subrange(start as int, i as int).push(
                v@[i as int],
            ));
            assert(views(pieces@).push(s@.subrange(start as int, i + 1)) =~= r.update(
                r.len() - 1,
                r.last().push(v@[i as int]),
            ));
        }
        i = i + 1;
    }
    assert(s@.take(n as int) =~= s@);
    let last = slice_to_string(s, start, n);
    let ghost old_views = views(pieces@);
    pieces.push(last);
    assert(views(pieces@) =~= old_views.push(s@.subrange(start as int, n as int)));
    assert(views(pieces@) =~= split_on(s@, sep));
    pieces
}

/// `needle` occurs in `hay` at position `i`.
pub open spec fn occurs_at(hay: Seq<char>, needle: Seq<char>, i: int) -> bool {
    0 <= i && i + needle.len() <= hay.len() && hay.subrange(i, i + needle.len()) == needle
}

/// `needle` occurs somewhere in `hay` (`str::contains` with a `&str` pattern).
pub open spec fn occurs_in(hay: Seq<char>, needle: Seq<char>) -> bool {
    exists|i: int| occurs_at(hay, needle, i)
}

fn matches_at(hay: &Vec<char>, needle: &Vec<char>, i: usize) -> (b: bool)
    requires
        i + needle.len() <= hay.len(),
    ensures
        b == occurs_at(hay@, needle@, i as int),
{
    let mut k: usize = 0;
    while k < needle.len()
        invariant
            i + needle.len() <= hay.len(),
            k <= needle.len(),
            forall|m: int| 0 <= m < k ==> hay@[i + m] == needle@[m],
        decreases needle.len() - k,
    {
        if hay[i + k] != needle[k] {
            assert(hay@.subrange(i as int, i + needle.len())[k as int] != needle@[k as int]);
            return false;
        }
        k = k + 1;
    }
    assert(hay@.subrange(i as int, i + needle.len()) =~= needle@);
    true
}

/// Whether `needle` occurs in `hay` (`str::contains`).
pub fn contains(hay: &str, needle: &str) -> (b: bool)
    ensures
        b == occurs_in(hay@, needle@),
{
    let h = chars_of(hay);
    let nd = chars_of(needle);
    if nd.len() == 0 {
        assert(hay@.subrange(0, 0) =~= needle@);
        assert(occurs_at(hay@, needle@, 0));
        return true;
    }
    if nd.len() > h.len() {
        assert forall|i: int| !occurs_at(hay@, needle@, i) by {}
        return false;
    }
    let last = h.len() - nd.len();
    let mut i: usize = 0;
    while i < last + 1
        invariant
            h@ == hay@,
            nd@ == needle@,
            last == h.len() - nd.len(),
            0 < nd.len() <= h.len(),
            i <= last + 1,
            forall|m: int| 0 <= m < i ==> !occurs_at(hay@, needle@, m),
        decreases last + 1 - i,
    {
        if matches_at(&h, &nd, i) {
            return true;
        }
        i = i + 1;
    }
    assert forall|m: int| !occurs_at(hay@, needle@, m) by {}
    false
}

/// The pieces of `parts` with `sep` between each two neighbours (`[&str]::join`).
pub open spec fn joined(parts: Seq<Seq<char>>, sep: Seq<char>) -> Seq<char>
    decreases parts.len(),
{
    if parts.len() == 0 {
        Seq::empty()
    } else if parts.len() == 1 {
        parts[0]
    } else {
        joined(parts.drop_last(), sep) + sep + parts.last()
    }
}

/// `parts` joined with `sep` between each two neighbours.
pub fn join(parts: &Vec<String>, sep: &str) -> (r: String)
    ensures
        r@ == joined(views(parts@), sep@),
{
    let mut r = String::new();
    let mut i: usize = 0;
    while i < parts.len()
        invariant
            i <= parts.len(),
            r@ == joined(views(parts@).take(i as int), sep@),
        decreases parts.len() - i,
    {
        assert(views(parts@).take(i + 1).drop_last() =~= views(parts@).take(i as int));
        if i > 0 {
            r.append(sep);
        }
        r.append(parts[i].as_str());
        i = i + 1;
    }
    assert(views(parts@).take(parts.len() as int) =~= views(parts@));
    r
}


/// No character of `s` is `sep`.
pub open spec fn free_of(s: Seq<char>, sep: char) -> bool {
    forall|i: int| 0 <= i < s.len() ==> #[trigger] s[i] != sep
}

/// A text without `sep` splits into itself alone.
pub proof fn lemma_split_without_sep(p: Seq<char>, sep: char)
    requires
        free_of(p, sep),
    ensures
        split_on(p, sep) == seq![p],
    decreases p.len(),
{
    if p.len() > 0 {
        let q = p.drop_last();
        assert(free_of(q, sep)) by {
            assert forall|i: int| 0 <= i < q.len() implies #[trigger] q[i] != sep by {
                assert(q[i] == p[i]);
            }
        }
        lemma_split_without_sep(q, sep);
        assert(p[p.len() - 1] != sep);
        assert(q.push(p.last()) =~= p);
        assert(seq![q].update(0, q.push(p.last())) =~= seq![p]);
    } else {
        assert(p =~= Seq::<char>::empty());
    }
}

/// Splitting `a`, `sep` and a piece `b` without `sep` gives the pieces of
/// `a` and then `b`.
pub proof fn lemma_split_after_sep(a: Seq<char>, b: Seq<char>, sep: char)
    requires
        free_of(b, sep),
    ensures
        split_on(a + seq![sep] + b, sep) == split_on(a, sep).push(b),
    decreases b.len(),
{
    let s = a + seq![sep] + b;
    if b.len() == 0 {
        assert(s.drop_last() =~= a);
        assert(s.last() == sep);
        assert(b =~= Seq::<char>::empty());
    } else {
        let c = b.drop_last();
        assert(free_of(c, sep)) by {
            assert forall|i: int| 0 <= i < c.len() implies #[trigger] c[i] != sep by {
                assert(c[i] == b[i]);
            }
        }
        lemma_split_after_sep(a, c, sep);
        assert(s.drop_last() =~= a + seq![sep] + c);
        assert(s.last() == b[b.len() - 1]);
        lemma_split_nonempty(a, sep);
        let r = split_on(a, sep).push(c);
        assert(r.update(r.len() - 1, r.last().push(b.last())) =~= split_on(a, sep).push(b)) by {
            assert(c.push(b.last()) =~= b);
        }
    }
}

/// Joining pieces that hold no `sep` with `sep` and splitting the result at
/// `sep` gives the pieces back.
pub proof fn lemma_split_joined(parts: Seq<Seq<char>>, sep: char)
    requires
        parts.len() > 0,
        forall|k: int| 0 <= k < parts.len() ==> free_of(#[trigger] parts[k], sep),
    ensures
        split_on(joined(parts, seq![sep]), sep) == parts,
    decreases parts.len(),
{
    if parts.len() == 1 {
        assert(free_of(parts[0], sep));
        lemma_split_without_sep(parts[0], sep);
        assert(seq![parts[0]] =~= parts);
    } else {
        let init = parts.drop_last();
        assert forall|k: int| 0 <= k < init.len() implies free_of(#[trigger] init[k], sep) by {
            assert(init[k] == parts[k]);
        }
        lemma_split_joined(init, sep);
        assert(free_of(parts[parts.len() - 1], sep));
        lemma_split_after_sep(joined(init, seq![sep]), parts.last(), sep);
        assert(init.push(parts.last()) =~= parts);
    }
}

/// An ASCII decimal digit.
pub open spec fn is_decimal_digit(c: char) -> bool {
    48 <= (c as u32) <= 57
}

/// Every character of `s` is an ASCII decimal digit.
pub open spec fn all_decimal_digits(s: Seq<char>) -> bool {
    forall|i: int| 0 <= i < s.len() ==> is_decimal_digit(#[trigger] s[i])
}

/// The number that the decimal digits `s` spell.
pub open spec fn digits_value(s: Seq<char>) -> nat
    decreases s.len(),
{
    if s.len() == 0 {
        0
    } else {
        digits_value(s.drop_last()) * 10 + ((s.last() as u32) - 48) as nat
    }
}

/// `s` without one leading `+`.
pub open spec fn unsigned_body(s: Seq<char>) -> Seq<char> {
    if s.len() > 0 && s[0] == '+' {
        s.drop_first()
    } else {
        s
    }
}

/// What `str::parse` gives for an unsigned integer type whose largest value
/// is `max`: an optional `+` followed by at least one ASCII digit, the value
/// at most `max`; anything else is an error.
pub open spec fn parsed_unsigned(s: Seq<char>, max: nat) -> Option<nat> {
    let d = unsigned_body(s);
    if d.len() > 0 && all_decimal_digits(d) && digits_value(d) <= max {
        Some(digits_value(d))
    } else {
        None
    }
}

proof fn lemma_digits_value_prefix(s: Seq<char>, k: int)
    requires
        0 <= k <= s.len(),
    ensures
        digits_value(s.take(k)) <= digits_value(s),
    decreases s.len(),
{
    if k < s.len() {
        assert(s.drop_last().take(k) =~= s.take(k));
        lemma_digits_value_prefix(s.drop_last(), k);
    } else {
        assert(s.take(k) =~= s);
    }
}

/// `s` read as a `u64` (`str::parse::<u64>`), `None` where that is an error.
pub fn parse_u64(s: &str) -> (r: Option<u64>)
    ensures
        match r {
            Some(x) => parsed_unsigned(s@, u64::MAX as nat) == Some(x as nat),
            None => parsed_unsigned(s@, u64::MAX as nat) is None,
        },
{
    let v = chars_of(s);
    let n = v.len();
    let start: usize = if n > 0 && v[0] == '+' {
        1
    } else {
        0
    };
    let ghost d = unsigned_body(s@);
    assert(d =~= s@.subrange(start as int, n as int));
    if start == n {
        return None;
    }
    let mut acc: u64 = 0;
    let mut i: usize = start;
    assert(d.take(0) =~= Seq::<char>::empty());
    while i < n
        invariant
            v@ == s@,
            n == v.len(),
            start <= i <= n,
            d =~= s@.subrange(start as int, n as int),
            d == unsigned_body(s@),
            all_decimal_digits(d.take(i - start)),
            acc as nat == digits_value(d.take(i - start)),
        decreases n - i,
    {
        let c = v[i];
        let k: usize = i - start;
        assert(d[k as int] == c);
        if !((c as u32) >= 48 && (c as u32) <= 57) {
            assert(!is_decimal_digit(d[k as int]));
            return None;
        }
        let dv: u64 = ((c as u32) - 48) as u64;
        assert(d.take(k + 1).drop_last() =~= d.take(k as int));
        assert(d.take(k + 1).last() == c);
        assert(digits_value(d.take(k + 1)) == digits_value(d.take(k as int)) * 10 + dv);
        match acc.checked_mul(10) {
            Some(m) => match m.checked_add(dv) {
                Some(a) => {
                    acc = a;
                },
                None => {
                    proof {
                        if all_decimal_digits(d) {
                            lemma_digits_value_prefix(d, k + 1);
                        }
                    }
                    return None;
                },
            },
            None => {
                proof {
                    if all_decimal_digits(d) {
                        lemma_digits_value_prefix(d, k + 1);
                    }
                }
                return None;
            },
        }
        i = i + 1;
    }
    assert(d.take(n - start) =~= d);
    Some(acc)
}

/// `s` read as a `u32` (`str::parse::<u32>`), `None` where that is an error.
pub fn parse_u32(s: &str) -> (r: Option<u32>)
    ensures
        match r {
            Some(x) => parsed_unsigned(s@, u32::MAX as nat) == Some(x as nat),
            None => parsed_unsigned(s@, u32::MAX as nat) is None,
        },
{
    match parse_u64(s) {
        Some(x) => {
            if x <= u32::MAX as u64 {
                Some(x as u32)
            } else {
                None
            }
        },
        None => None,
    }
}

/// The ASCII digit for `d < 10`.
pub open spec fn digit_char(d: nat) -> char {
    ((d + 48) as u32) as char
}

/// The decimal spelling of `n`, without leading zeros.
pub open spec fn decimal(n: nat) -> Seq<char>
    decreases n,
{
    if n < 10 {
        seq![digit_char(n)]
    } else {
        decimal(n / 10).push(digit_char(n % 10))
    }
}

fn digit_str(d: u64) -> (s: &'static str)
    requires
        d < 10,
    ensures
        s@ == seq![digit_char(d as nat)],
{
    proof {
        reveal_strlit("0");
        reveal_strlit("1");
        reveal_strlit("2");
        reveal_strlit("3");
        reveal_strlit("4");
        reveal_strlit("5");
        reveal_strlit("6");
        reveal_strlit("7");
        reveal_strlit("8");
        reveal_strlit("9");
    }
    let s = if d == 0 {
        "0"
    } else if d == 1 {
        "1"
    } else if d == 2 {
        "2"
    } else if d == 3 {
        "3"
    } else if d == 4 {
        "4"
    } else if d == 5 {
        "5"
    } else if d == 6 {
        "6"
    } else if d == 7 {
        "7"
    } else if d == 8 {
        "8"
    } else {
        "9"
    };
    assert(s@ =~= seq![digit_char(d as nat)]);
    s
}

/// Appends the decimal spelling of `n` to `out`.
pub fn push_decimal(out: &mut String, n: u64)
    ensures
        final(out)@ == old(out)@ + decimal(n as nat),
    decreases n,
{
    if n >= 10 {
        push_decimal(out, n / 10);
    }
    out.append(digit_str(n % 10));
    assert(old(out)@ + decimal(n as nat) =~= if n >= 10 {
        old(out)@ + decimal((n / 10) as nat) + seq![digit_char((n % 10) as nat)]
    } else {
        old(out)@ + seq![digit_char((n % 10) as nat)]
    });
}

} // verus!
