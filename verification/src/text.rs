//! Verified text helpers: decimal rendering of integers, character-exact
//! string comparison, prefix tests, whitespace trimming and ANSI escape
//! stripping, all specified over `Seq<char>` views.

use vstd::prelude::*;

verus! {

/// The decimal digit character for `d`, which must be in `0 ..= 9`.
pub open spec fn dec_digit(d: int) -> char {
    if d == 0 {
        '0'
    } else if d == 1 {
        '1'
    } else if d == 2 {
        '2'
    } else if d == 3 {
        '3'
    } else if d == 4 {
        '4'
    } else if d == 5 {
        '5'
    } else if d == 6 {
        '6'
    } else if d == 7 {
        '7'
    } else if d == 8 {
        '8'
    } else {
        '9'
    }
}

/// Decimal representation of a non-negative integer, most significant
/// digit first, with no leading zeros (except for `0` itself).
pub open spec fn spec_dec(n: int) -> Seq<char>
    decreases n,
{
    if n < 10 {
        seq![dec_digit(n)]
    } else {
        spec_dec(n / 10).push(dec_digit(n % 10))
    }
}

/// `n` rendered with at least two digits: a single leading zero is added
/// below ten.
pub open spec fn spec_dec2(n: int) -> Seq<char> {
    if n < 10 {
        seq!['0'].add(spec_dec(n))
    } else {
        spec_dec(n)
    }
}

fn digit_str(d: u64) -> (r: &'static str)
    requires
        d < 10,
    ensures
        r@ == seq![dec_digit(d as int)],
{
    let r: &'static str = match d {
        0 => "0",
        1 => "1",
        2 => "2",
        3 => "3",
        4 => "4",
        5 => "5",
        6 => "6",
        7 => "7",
        8 => "8",
        _ => "9",
    };
    proof {
        reveal_strlit("0");
        reveal_strlit("1");
        reveal_strlit("2");
        reveal_strlit("3");
        reveal_strlit("4");
        reveal_strlit("5");
        reveal_strlit("6");
        reveal_strlit("7");
        reveal_strlit("8");
        reveal_strlit("9");
        assert(r@ =~= seq![dec_digit(d as int)]);
    }
    r
}

/// Render `n` in decimal.
pub fn fmt_u64(n: u64) -> (r: String)
    ensures
        r@ == spec_dec(n as int),
    decreases n,
{
    if n < 10 {
        digit_str(n).to_owned()
    } else {
        let prefix = fmt_u64(n / 10);
        prefix.concat(digit_str(n % 10))
    }
}

/// Render `n` in decimal, zero-padded to at least two digits.
pub fn fmt_u64_pad2(n: u64) -> (r: String)
    ensures
        r@ == spec_dec2(n as int),
{
    if n < 10 {
        let mut out = zero_str().to_owned();
        let digits = fmt_u64(n);
        out.append(digits.as_str());
        out
    } else {
        fmt_u64(n)
    }
}

fn zero_str() -> (r: &'static str)
    ensures
        r@ == seq!['0'],
{
    proof {
        reveal_strlit("0");
        assert("0"@ =~= seq!['0']);
    }
    "0"
}

/// Character-exact equality of two string slices.
pub fn str_eq(a: &str, b: &str) -> (r: bool)
    ensures
        r == (a@ == b@),
{
    let la = a.unicode_len();
    let lb = b.unicode_len();
    if la != lb {
        return false;
    }
    let mut i: usize = 0;
    while i < la
        invariant
            la == a@.len(),
            la == b@.len(),
            i <= la,
            forall|j: int| 0 <= j < i ==> a@[j] == b@[j],
        decreases la - i,
    {
        if a.get_char(i) != b.get_char(i) {
            return false;
        }
        i += 1;
    }
    proof {
        assert(a@ =~= b@);
    }
    true
}

/// `b` is a prefix of `a`.
pub open spec fn spec_starts_with(a: Seq<char>, b: Seq<char>) -> bool {
    b.len() <= a.len() && a.subrange(0, b.len() as int) == b
}

/// Whether the string slice `a` starts with `b`, character for character.
pub fn str_starts_with(a: &str, b: &str) -> (r: bool)
    ensures
        r == spec_starts_with(a@, b@),
{
    let la = a.unicode_len();
    let lb = b.unicode_len();
    if lb > la {
        return false;
    }
    let mut i: usize = 0;
    while i < lb
        invariant
            la == a@.len(),
            lb == b@.len(),
            lb <= la,
            i <= lb,
            forall|j: int| 0 <= j < i ==> a@[j] == b@[j],
        decreases lb - i,
    {
        if a.get_char(i) != b.get_char(i) {
            proof {
                assert(a@.subrange(0, lb as int)[i as int] != b@[i as int]);
            }
            return false;
        }
        i += 1;
    }
    proof {
        assert(a@.subrange(0, lb as int) =~= b@);
    }
    true
}

/// The index of the first space in `s`, if any.
pub fn find_space(s: &str) -> (r: Option<usize>)
    ensures
        match r {
            Some(i) => i < s@.len() && s@[i as int] == ' ' && forall|j: int|
                0 <= j < i ==> s@[j] != ' ',
            None => forall|j: int| 0 <= j < s@.len() ==> s@[j] != ' ',
        },
{
    let len = s.unicode_len();
    let mut i: usize = 0;
    while i < len
        invariant
            len == s@.len(),
            i <= len,
            forall|j: int| 0 <= j < i ==> s@[j] != ' ',
        decreases len - i,
    {
        if s.get_char(i) == ' ' {
            return Some(i);
        }
        i += 1;
    }
    None
}

/// The first `n` characters of `s`, or all of `s` when it is shorter.
pub open spec fn spec_take_chars(s: Seq<char>, n: int) -> Seq<char> {
    if s.len() <= n {
        s
    } else {
        s.subrange(0, n)
    }
}

/// Keep at most the first `n` characters of `s`.
pub fn take_chars(s: &String, n: usize) -> (r: String)
    ensures
        r@ == spec_take_chars(s@, n as int),
{
    let len = s.as_str().unicode_len();
    if len <= n {
        s.clone()
    } else {
        let cut = s.as_str().substring_char(0, n);
        cut.to_owned()
    }
}

/// ASCII whitespace, the only whitespace the runtime emits in state and
/// status strings.
pub open spec fn is_space_char(c: char) -> bool {
    c == ' ' || c == '\t' || c == '\n' || c == '\r'
}

/// `s` with leading whitespace removed.
pub open spec fn spec_trim_front(s: Seq<char>) -> Seq<char>
    decreases s.len(),
{
    if s.len() > 0 && is_space_char(s[0]) {
        spec_trim_front(s.drop_first())
    } else {
        s
    }
}

/// `s` with trailing whitespace removed.
pub open spec fn spec_trim_back(s: Seq<char>) -> Seq<char>
    decreases s.len(),
{
    if s.len() > 0 && is_space_char(s[s.len() - 1]) {
        spec_trim_back(s.drop_last())
    } else {
        s
    }
}

/// `s` with leading and trailing whitespace removed.
pub open spec fn spec_trim(s: Seq<char>) -> Seq<char> {
    spec_trim_back(spec_trim_front(s))
}

proof fn lemma_trim_front_subrange(s: Seq<char>, i: int)
    requires
        0 <= i <= s.len(),
        forall|j: int| 0 <= j < i ==> is_space_char(s[j]),
        i == s.len() || !is_space_char(s[i]),
    ensures
        spec_trim_front(s) == s.subrange(i, s.len() as int),
    decreases i,
{
    if i == 0 {
        if s.len() == 0 || !is_space_char(s[0]) {
            assert(s.subrange(0, s.len() as int) =~= s);
        }
    } else {
        assert(is_space_char(s[0]));
        let t = s.drop_first();
        assert(t =~= s.subrange(1, s.len() as int));
        lemma_trim_front_subrange(t, i - 1);
        assert(t.subrange(i - 1, t.len() as int) =~= s.subrange(i, s.len() as int));
    }
}

proof fn lemma_trim_back_subrange(s: Seq<char>, i: int)
    requires
        0 <= i <= s.len(),
        forall|j: int| i <= j < s.len() ==> is_space_char(s[j]),
        i == 0 || !is_space_char(s[i - 1]),
    ensures
        spec_trim_back(s) == s.subrange(0, i),
    decreases s.len(),
{
    if i == s.len() {
        if s.len() == 0 || !is_space_char(s[s.len() - 1]) {
            assert(s.subrange(0, s.len() as int) =~= s);
        }
    } else {
        assert(is_space_char(s[s.len() - 1]));
        let t = s.drop_last();
        assert(t =~= s.subrange(0, s.len() - 1));
        lemma_trim_back_subrange(t, i);
        assert(t.subrange(0, i) =~= s.subrange(0, i));
    }
}

/// Remove leading and trailing whitespace.
pub fn trim_str(s: &str) -> (r: String)
    ensures
        r@ == spec_trim(s@),
{
    let len = s.unicode_len();
    let mut start: usize = 0;
    while start < len && is_space(s.get_char(start))
        invariant
            len == s@.len(),
            start <= len,
            forall|j: int| 0 <= j < start ==> is_space_char(s@[j]),
        decreases len - start,
    {
        start += 1;
    }
    proof {
        lemma_trim_front_subrange(s@, start as int);
    }
    if start == len {
        proof {
            assert(spec_trim_front(s@) =~= Seq::<char>::empty());
            assert(spec_trim_back(Seq::<char>::empty()) =~= Seq::<char>::empty());
        }
        return String::new();
    }
    let mut end: usize = len;
    while end > start && is_space(s.get_char(end - 1))
        invariant
            len == s@.len(),
            start <= end <= len,
            !is_space_char(s@[start as int]),
            forall|j: int| end <= j < len ==> is_space_char(s@[j]),
        decreases end,
    {
        end -= 1;
    }
    let out = s.substring_char(start, end);
    proof {
        let f = spec_trim_front(s@);
        assert(f == s@.subrange(start as int, len as int));
        assert(end > start);
        lemma_trim_back_subrange(
            f,
            end - start,
        );
        assert(f.subrange(0, end - start) =~= s@.subrange(start as int, end as int));
    }
    out.to_owned()
}

fn is_space(c: char) -> (r: bool)
    ensures
        r == is_space_char(c),
{
    c == ' ' || c == '\t' || c == '\n' || c == '\r'
}

/// Lexicographic order on character sequences by scalar value, the order
/// `String` comparison induces on UTF-8 text.
pub open spec fn str_le(a: Seq<char>, b: Seq<char>) -> bool
    decreases a.len(),
{
    if a.len() == 0 {
        true
    } else if b.len() == 0 {
        false
    } else if a[0] != b[0] {
        (a[0] as int) < (b[0] as int)
    } else {
        str_le(a.drop_first(), b.drop_first())
    }
}

/// `str_le` is total.
pub proof fn lemma_str_le_total(a: Seq<char>, b: Seq<char>)
    ensures
        str_le(a, b) || str_le(b, a),
    decreases a.len(),
{
    if a.len() != 0 && b.len() != 0 && a[0] == b[0] {
        lemma_str_le_total(a.drop_first(), b.drop_first());
    }
}

/// `str_le` is transitive.
pub proof fn lemma_str_le_trans(a: Seq<char>, b: Seq<char>, c: Seq<char>)
    requires
        str_le(a, b),
        str_le(b, c),
    ensures
        str_le(a, c),
    decreases a.len(),
{
    if a.len() != 0 && b.len() != 0 && c.len() != 0 {
        if a[0] == b[0] && b[0] == c[0] {
            lemma_str_le_trans(a.drop_first(), b.drop_first(), c.drop_first());
        }
    }
}

proof fn lemma_str_le_skip(a: Seq<char>, b: Seq<char>, i: int)
    requires
        0 <= i <= a.len(),
        i <= b.len(),
        forall|j: int| 0 <= j < i ==> a[j] == b[j],
    ensures
        str_le(a, b) == str_le(a.skip(i), b.skip(i)),
    decreases i,
{
    if i > 0 {
        assert(a.len() > 0 && b.len() > 0 && a[0] == b[0]);
        assert(a.drop_first() =~= a.skip(1));
        assert(b.drop_first() =~= b.skip(1));
        lemma_str_le_skip(a.skip(1), b.skip(1), i - 1);
        assert(a.skip(1).skip(i - 1) =~= a.skip(i));
        assert(b.skip(1).skip(i - 1) =~= b.skip(i));
    } else {
        assert(a.skip(0) =~= a);
        assert(b.skip(0) =~= b);
    }
}

/// Compare two string slices lexicographically by character.
pub fn str_le_exec(a: &str, b: &str) -> (r: bool)
    ensures
        r == str_le(a@, b@),
{
    let la = a.unicode_len();
    let lb = b.unicode_len();
    let min = if la < lb {
        la
    } else {
        lb
    };
    let mut i: usize = 0;
    while i < min
        invariant
            la == a@.len(),
            lb == b@.len(),
            min == if la < lb { la } else { lb },
            i <= min,
            forall|j: int| 0 <= j < i ==> a@[j] == b@[j],
        decreases min - i,
    {
        let ca = a.get_char(i);
        let cb = b.get_char(i);
        if ca != cb {
            proof {
                lemma_str_le_skip(a@, b@, i as int);
                assert(a@.skip(i as int)[0] == a@[i as int]);
                assert(b@.skip(i as int)[0] == b@[i as int]);
            }
            return (ca as u32) < (cb as u32);
        }
        i += 1;
    }
    proof {
        lemma_str_le_skip(a@, b@, min as int);
        if la <= lb {
            assert(a@.skip(min as int).len() == 0);
        } else {
            assert(a@.skip(min as int).len() > 0);
            assert(b@.skip(min as int).len() == 0);
        }
    }
    la <= lb
}

/// One line with a trailing carriage return removed, as line splitting
/// treats a carriage return before the newline as part of the ending.
pub open spec fn spec_strip_cr(s: Seq<char>) -> Seq<char> {
    if s.len() > 0 && s[s.len() - 1] == '\r' {
        s.drop_last()
    } else {
        s
    }
}

/// Line splitting with the current unfinished line accumulated in
/// `cur`: each newline emits the line gathered so far, a carriage
/// return before the newline belongs to the ending, and a final
/// unfinished line is emitted only when non-empty.
pub open spec fn spec_split_lines_from(s: Seq<char>, cur: Seq<char>) -> Seq<Seq<char>>
    decreases s.len(),
{
    if s.len() == 0 {
        if cur.len() == 0 {
            Seq::<Seq<char>>::empty()
        } else {
            seq![cur]
        }
    } else if s[0] == '\n' {
        seq![spec_strip_cr(cur)].add(spec_split_lines_from(s.drop_first(), Seq::<char>::empty()))
    } else {
        spec_split_lines_from(s.drop_first(), cur.push(s[0]))
    }
}

/// The text split at newlines: a carriage return before a newline
/// belongs to the line ending, and a final line ending produces no
/// empty last line.
pub open spec fn spec_split_lines(s: Seq<char>) -> Seq<Seq<char>> {
    spec_split_lines_from(s, Seq::<char>::empty())
}

proof fn lemma_split_at_newline(u: Seq<char>, cur: Seq<char>, i: int)
    requires
        0 <= i < u.len(),
        u[i] == '\n',
        forall|j: int| 0 <= j < i ==> u[j] != '\n',
    ensures
        spec_split_lines_from(u, cur) == seq![
            spec_strip_cr(cur.add(u.subrange(0, i))),
        ].add(spec_split_lines_from(u.subrange(i + 1, u.len() as int), Seq::<char>::empty())),
    decreases i,
{
    if i == 0 {
        assert(cur.add(u.subrange(0, 0)) =~= cur);
        assert(u.drop_first() =~= u.subrange(1, u.len() as int));
    } else {
        let rest = u.drop_first();
        assert(rest =~= u.subrange(1, u.len() as int));
        assert forall|j: int| 0 <= j < i - 1 implies rest[j] != '\n' by {
            assert(rest[j] == u[j + 1]);
        }
        assert(rest[i - 1] == '\n');
        lemma_split_at_newline(rest, cur.push(u[0]), i - 1);
        assert(cur.push(u[0]).add(rest.subrange(0, i - 1)) =~= cur.add(u.subrange(0, i)));
        assert(rest.subrange(i, rest.len() as int) =~= u.subrange(i + 1, u.len() as int));
    }
}

proof fn lemma_split_no_newline(u: Seq<char>, cur: Seq<char>)
    requires
        forall|j: int| 0 <= j < u.len() ==> u[j] != '\n',
    ensures
        spec_split_lines_from(u, cur) == if cur.add(u).len() == 0 {
            Seq::<Seq<char>>::empty()
        } else {
            seq![cur.add(u)]
        },
    decreases u.len(),
{
    if u.len() == 0 {
        assert(cur.add(u) =~= cur);
    } else {
        let rest = u.drop_first();
        assert forall|j: int| 0 <= j < rest.len() implies rest[j] != '\n' by {
            assert(rest[j] == u[j + 1]);
        }
        lemma_split_no_newline(rest, cur.push(u[0]));
        assert(cur.push(u[0]).add(rest) =~= cur.add(u));
    }
}

/// Whether the text holds a newline.
pub open spec fn spec_has_newline(s: Seq<char>) -> bool {
    exists|i: int| 0 <= i < s.len() && s[i] == '\n'
}

/// The index of the first newline.
pub open spec fn spec_first_newline(s: Seq<char>) -> int
    decreases s.len(),
{
    if s.len() == 0 {
        0
    } else if s[0] == '\n' {
        0
    } else {
        1 + spec_first_newline(s.drop_first())
    }
}

proof fn lemma_first_newline(s: Seq<char>)
    requires
        spec_has_newline(s),
    ensures
        0 <= spec_first_newline(s) < s.len(),
        s[spec_first_newline(s)] == '\n',
        forall|j: int| 0 <= j < spec_first_newline(s) ==> s[j] != '\n',
    decreases s.len(),
{
    if s.len() > 0 && s[0] != '\n' {
        let rest = s.drop_first();
        assert(spec_has_newline(rest)) by {
            let i = choose|i: int| 0 <= i < s.len() && s[i] == '\n';
            assert(rest[i - 1] == '\n');
        }
        lemma_first_newline(rest);
        assert forall|j: int| 0 <= j < spec_first_newline(s) implies s[j] != '\n' by {
            if j > 0 {
                assert(rest[j - 1] == s[j]);
            }
        }
    }
}

fn find_newline(s: &str) -> (r: Option<usize>)
    ensures
        match r {
            Some(i) => spec_has_newline(s@) && i == spec_first_newline(s@) && i < s@.len(),
            None => !spec_has_newline(s@),
        },
{
    let len = s.unicode_len();
    let mut i: usize = 0;
    while i < len
        invariant
            len == s@.len(),
            i <= len,
            forall|j: int| 0 <= j < i ==> s@[j] != '\n',
        decreases len - i,
    {
        if s.get_char(i) == '\n' {
            proof {
                assert(spec_has_newline(s@));
                lemma_first_newline(s@);
            }
            return Some(i);
        }
        i += 1;
    }
    None
}

fn strip_cr_owned(s: &str) -> (r: String)
    ensures
        r@ == spec_strip_cr(s@),
{
    let len = s.unicode_len();
    if len > 0 && s.get_char(len - 1) == '\r' {
        let cut = s.substring_char(0, len - 1);
        proof {
            assert(cut@ =~= s@.drop_last());
        }
        cut.to_owned()
    } else {
        s.to_owned()
    }
}

/// Split text into its lines.
pub fn split_lines(s: &str) -> (r: Vec<String>)
    ensures
        r@.map_values(|l: String| l@) == spec_split_lines(s@),
{
    let mut out: Vec<String> = Vec::new();
    let mut rest: String = s.to_owned();
    proof {
        assert(out@.map_values(|l: String| l@) =~= Seq::<Seq<char>>::empty());
    }
    loop
        invariant
            out@.map_values(|l: String| l@).add(spec_split_lines(rest@)) =~= spec_split_lines(
                s@,
            ),
        ensures
            rest@.len() == 0,
        decreases rest@.len(),
    {
        let ghost out0 = out@.map_values(|l: String| l@);
        let rlen = rest.as_str().unicode_len();
        if rlen == 0 {
            break;
        }
        match find_newline(rest.as_str()) {
            Some(i) => {
                proof {
                    lemma_first_newline(rest@);
                    lemma_split_at_newline(rest@, Seq::<char>::empty(), i as int);
                    assert(Seq::<char>::empty().add(rest@.subrange(0, i as int))
                        =~= rest@.subrange(0, i as int));
                }
                let head = rest.as_str().substring_char(0, i);
                let line = strip_cr_owned(head);
                proof {
                    assert(head@ =~= rest@.subrange(0, i as int));
                }
                let tail = rest.as_str().substring_char(i + 1, rlen);
                proof {
                    assert(tail@ =~= rest@.subrange(i + 1, rest@.len() as int));
                }
                let tail_owned = tail.to_owned();
                let ghost rv = rest@;
                out.push(line);
                proof {
                    assert(out@.map_values(|l: String| l@) =~= out0.push(
                        spec_strip_cr(rv.subrange(0, i as int)),
                    ));
                    assert(out0.push(spec_strip_cr(rv.subrange(0, i as int))).add(
                        spec_split_lines(tail_owned@),
                    ) =~= out0.add(
                        seq![spec_strip_cr(rv.subrange(0, i as int))].add(
                            spec_split_lines(tail_owned@),
                        ),
                    ));
                }
                rest = tail_owned;
            },
            None => {
                proof {
                    lemma_split_no_newline(rest@, Seq::<char>::empty());
                    assert(Seq::<char>::empty().add(rest@) =~= rest@);
                }
                let ghost rv = rest@;
                out.push(rest);
                proof {
                    assert(out@.map_values(|l: String| l@) =~= out0.push(rv));
                    assert(out0.push(rv) =~= out0.add(seq![rv]));
                }
                rest = String::new();
                proof {
                    assert(spec_split_lines(rest@) =~= Seq::<Seq<char>>::empty());
                    assert(out@.map_values(|l: String| l@).add(
                        Seq::<Seq<char>>::empty(),
                    ) =~= out@.map_values(|l: String| l@));
                }
            },
        }
    }
    proof {
        assert(spec_split_lines(rest@) =~= Seq::<Seq<char>>::empty());
        assert(out@.map_values(|l: String| l@).add(Seq::<Seq<char>>::empty()) =~= out@.map_values(
            |l: String| l@,
        ));
    }
    out
}

/// State of the escape-sequence scanner: outside any sequence, right
/// after an escape character, or inside a control sequence.
#[derive(Debug, Clone, Copy, PartialEq, Eq, Structural)]
pub enum AnsiScan {
    Plain,
    AfterEsc,
    InCsi,
}

/// Whether a character ends a control sequence.
pub open spec fn is_csi_final(c: char) -> bool {
    0x40 <= (c as int) && (c as int) <= 0x7e
}

/// One scanner step: whether the character is kept, and the next state.
pub open spec fn spec_ansi_step(st: AnsiScan, c: char) -> (bool, AnsiScan) {
    match st {
        AnsiScan::Plain => if c == '\u{1b}' {
            (false, AnsiScan::AfterEsc)
        } else {
            (true, AnsiScan::Plain)
        },
        AnsiScan::AfterEsc => if c == '[' {
            (false, AnsiScan::InCsi)
        } else {
            (false, AnsiScan::Plain)
        },
        AnsiScan::InCsi => if is_csi_final(c) {
            (false, AnsiScan::Plain)
        } else {
            (false, AnsiScan::InCsi)
        },
    }
}

/// The text with ANSI escape sequences removed, scanning from state
/// `st`.
pub open spec fn spec_strip_ansi_from(s: Seq<char>, st: AnsiScan) -> Seq<char>
    decreases s.len(),
{
    if s.len() == 0 {
        s
    } else {
        let step = spec_ansi_step(st, s[0]);
        let rest = spec_strip_ansi_from(s.drop_first(), step.1);
        if step.0 {
            seq![s[0]].add(rest)
        } else {
            rest
        }
    }
}

/// The text with ANSI escape sequences removed.
pub open spec fn spec_strip_ansi(s: Seq<char>) -> Seq<char> {
    spec_strip_ansi_from(s, AnsiScan::Plain)
}

proof fn lemma_strip_ansi_unfold(s: Seq<char>, st: AnsiScan, i: int)
    requires
        0 <= i < s.len(),
    ensures
        ({
            let step = spec_ansi_step(st, s[i]);
            spec_strip_ansi_from(s.skip(i), st) == if step.0 {
                seq![s[i]].add(spec_strip_ansi_from(s.skip(i + 1), step.1))
            } else {
                spec_strip_ansi_from(s.skip(i + 1), step.1)
            }
        }),
{
    assert(s.skip(i)[0] == s[i]);
    assert(s.skip(i).drop_first() =~= s.skip(i + 1));
}

fn ansi_step(st: AnsiScan, c: char) -> (r: (bool, AnsiScan))
    ensures
        r == spec_ansi_step(st, c),
{
    match st {
        AnsiScan::Plain => if c == '\u{1b}' {
            (false, AnsiScan::AfterEsc)
        } else {
            (true, AnsiScan::Plain)
        },
        AnsiScan::AfterEsc => if c == '[' {
            (false, AnsiScan::InCsi)
        } else {
            (false, AnsiScan::Plain)
        },
        AnsiScan::InCsi => if (c as u32) >= 0x40 && (c as u32) <= 0x7e {
            (false, AnsiScan::Plain)
        } else {
            (false, AnsiScan::InCsi)
        },
    }
}

/// Remove ANSI escape sequences from a line of text.
pub fn strip_ansi(s: &str) -> (r: String)
    ensures
        r@ == spec_strip_ansi(s@),
{
    let len = s.unicode_len();
    let mut out = String::new();
    let mut st = AnsiScan::Plain;
    let mut i: usize = 0;
    proof {
        assert(s@.skip(0) =~= s@);
        assert(out@ + spec_strip_ansi_from(s@, AnsiScan::Plain) =~= spec_strip_ansi_from(
            s@,
            AnsiScan::Plain,
        ));
    }
    while i < len
        invariant
            len == s@.len(),
            i <= len,
            spec_strip_ansi(s@) == out@ + spec_strip_ansi_from(s@.skip(i as int), st),
        decreases len - i,
    {
        let c = s.get_char(i);
        proof {
            lemma_strip_ansi_unfold(s@, st, i as int);
        }
        let ghost out0 = out@;
        let ghost st0 = st;
        let step = ansi_step(st, c);
        if step.0 {
            let piece = s.substring_char(i, i + 1);
            proof {
                assert(piece@ =~= seq![s@[i as int]]);
            }
            out.append(piece);
        }
        st = step.1;
        i += 1;
        proof {
            let rest = spec_strip_ansi_from(s@.skip(i as int), st);
            if spec_ansi_step(st0, s@[i - 1]).0 {
                assert(out@ =~= out0 + seq![s@[i - 1]]);
                assert(out0 + (seq![s@[i - 1]] + rest) =~= out@ + rest);
            }
        }
    }
    proof {
        assert(s@.skip(len as int).len() == 0);
        assert(out@ + spec_strip_ansi_from(s@.skip(len as int), st) =~= out@);
    }
    out
}

} // verus!
