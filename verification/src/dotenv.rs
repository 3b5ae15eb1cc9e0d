//! The Wi-Fi credentials in a `.env` file, and how they are handed to the compiler.

use vstd::prelude::*;

verus! {

/// A character with the Unicode property `White_Space`.
pub open spec fn is_white_space(c: char) -> bool {
    let n = c as u32;
    ||| 0x09 <= n <= 0x0d
    ||| n == 0x20
    ||| n == 0x85
    ||| n == 0xa0
    ||| n == 0x1680
    ||| 0x2000 <= n <= 0x200a
    ||| n == 0x2028
    ||| n == 0x2029
    ||| n == 0x202f
    ||| n == 0x205f
    ||| n == 0x3000
}

/// `s` without the white space at its front.
pub open spec fn trim_start(s: Seq<char>) -> Seq<char>
    decreases s.len(),
{
    if s.len() > 0 && is_white_space(s[0]) {
        trim_start(s.drop_first())
    } else {
        s
    }
}

/// `s` without the white space at its end.
pub open spec fn trim_end(s: Seq<char>) -> Seq<char>
    decreases s.len(),
{
    if s.len() > 0 && is_white_space(s.last()) {
        trim_end(s.drop_last())
    } else {
        s
    }
}

/// `s` without the white space at either end.
pub open spec fn trimmed(s: Seq<char>) -> Seq<char> {
    trim_end(trim_start(s))
}

/// The lines of a text: a line feed ends one and starts the next.
pub open spec fn lines_of(text: Seq<char>) -> Seq<Seq<char>>
    decreases text.len(),
{
    if text.len() == 0 {
        seq![Seq::empty()]
    } else {
        let before = lines_of(text.drop_last());
        if text.last() == '\n' {
            before.push(Seq::empty())
        } else {
            before.drop_last().push(before.last().push(text.last()))
        }
    }
}

/// Where the first equals sign stands at or after `k`, or the end.
pub open spec fn next_equals(s: Seq<char>, k: int) -> int
    decreases s.len() - k,
{
    if k >= s.len() {
        s.len() as int
    } else if s[k] == '=' {
        k
    } else {
        next_equals(s, k + 1)
    }
}

/// The name and value that a line assigns. Empty lines, comments, lines without an
/// equals sign and lines without a name assign nothing.
pub open spec fn assignment(line: Seq<char>) -> Option<(Seq<char>, Seq<char>)> {
    let t = trimmed(line);
    let k = next_equals(t, 0);
    if t.len() == 0 || t[0] == '#' || k >= t.len() || trimmed(t.take(k)).len() == 0 {
        None
    } else {
        Some((trimmed(t.take(k)), trimmed(t.skip(k + 1))))
    }
}

/// What the last line that assigns `name` assigns to it.
pub open spec fn value_in(lines: Seq<Seq<char>>, name: Seq<char>) -> Option<Seq<char>>
    decreases lines.len(),
{
    if lines.len() == 0 {
        None
    } else {
        match assignment(lines.last()) {
            Some((n, value)) if n == name => Some(value),
            _ => value_in(lines.drop_last(), name),
        }
    }
}

/// What a text assigns to `name`.
pub open spec fn env_value(text: Seq<char>, name: Seq<char>) -> Option<Seq<char>> {
    value_in(lines_of(text), name)
}

/// Whether a character is white space.
pub fn white_space(c: char) -> (r: bool)
    ensures
        r == is_white_space(c),
{
    let n: u32 = c as u32;
    (0x09 <= n && n <= 0x0d) || n == 0x20 || n == 0x85 || n == 0xa0 || n == 0x1680 || (0x2000 <= n
        && n <= 0x200a) || n == 0x2028 || n == 0x2029 || n == 0x202f || n == 0x205f || n == 0x3000
}

/// The characters of a string.
fn chars_of(s: &str) -> (r: Vec<char>)
    ensures
        r@ == s@,
{
    let mut out: Vec<char> = Vec::new();
    for c in it: s.chars()
        invariant
            out@ == it.seq().take(it.index() as int),
            it.seq() == s@,
    {
        assert(it.seq().take(it.index() + 1) =~= it.seq().take(it.index() as int).push(c));
        out.push(c);
    }
    assert(s@.take(s@.len() as int) =~= s@);
    out
}

/// The part of `text[from..to]` that is left once it is trimmed.
fn trim_range(text: &Vec<char>, from: usize, to: usize) -> (r: (usize, usize))
    requires
        from <= to <= text@.len(),
    ensures
        from <= r.0 <= r.1 <= to,
        text@.subrange(r.0 as int, r.1 as int) == trimmed(text@.subrange(from as int, to as int)),
{
    let mut a: usize = from;
    while a < to && white_space(text[a])
        invariant
            from <= a <= to <= text@.len(),
            trim_start(text@.subrange(from as int, to as int)) == trim_start(
                text@.subrange(a as int, to as int),
            ),
        decreases to - a,
    {
        assert(text@.subrange(a as int, to as int).drop_first() =~= text@.subrange(
            a + 1,
            to as int,
        ));
        a += 1;
    }
    let mut b: usize = to;
    while a < b && white_space(text[b - 1])
        invariant
            from <= a <= b <= to <= text@.len(),
            trimmed(text@.subrange(from as int, to as int)) == trim_end(
                text@.subrange(a as int, b as int),
            ),
        decreases b - a,
    {
        assert(text@.subrange(a as int, b as int).drop_last() =~= text@.subrange(
            a as int,
            b - 1,
        ));
        b -= 1;
    }
    (a, b)
}

/// The index of the first equals sign in `text[from..to]`, or `to`.
fn find_equals(text: &Vec<char>, from: usize, to: usize) -> (k: usize)
    requires
        from <= to <= text@.len(),
    ensures
        from <= k <= to,
        k - from == next_equals(text@.subrange(from as int, to as int), 0),
{
    let mut k: usize = from;
    while k < to
        invariant
            from <= k <= to <= text@.len(),
            next_equals(text@.subrange(from as int, to as int), 0) == next_equals(
                text@.subrange(from as int, to as int),
                k - from,
            ),
        decreases to - k,
    {
        if text[k] == '=' {
            return k;
        }
        k += 1;
    }
    k
}

/// The ranges of the name and value that the line `text[from..to]` assigns.
fn read_assignment(text: &Vec<char>, from: usize, to: usize) -> (r: Option<
    ((usize, usize), (usize, usize)),
>)
    requires
        from <= to <= text@.len(),
    ensures
        match r {
            Some((name, value)) => {
                &&& name.0 <= name.1 <= text@.len()
                &&& value.0 <= value.1 <= text@.len()
                &&& assignment(text@.subrange(from as int, to as int)) == Some(
                    (
                        text@.subrange(name.0 as int, name.1 as int),
                        text@.subrange(value.0 as int, value.1 as int),
                    ),
                )
            },
            None => assignment(text@.subrange(from as int, to as int)) is None,
        },
{
    let (a, b): (usize, usize) = trim_range(text, from, to);
    let ghost t = text@.subrange(a as int, b as int);
    if a == b || text[a] == '#' {
        return None;
    }
    let k: usize = find_equals(text, a, b);
    if k == b {
        return None;
    }
    assert(t.take(k - a) =~= text@.subrange(a as int, k as int));
    assert(t.skip(k - a + 1) =~= text@.subrange(k + 1, b as int));
    let name: (usize, usize) = trim_range(text, a, k);
    let value: (usize, usize) = trim_range(text, k + 1, b);
    if name.0 == name.1 {
        return None;
    }
    Some((name, value))
}

/// Whether `text[from..to]` is `name`.
fn range_is(text: &Vec<char>, range: (usize, usize), name: &str) -> (r: bool)
    requires
        range.0 <= range.1 <= text@.len(),
    ensures
        r == (text@.subrange(range.0 as int, range.1 as int) == name@),
{
    let ghost part = text@.subrange(range.0 as int, range.1 as int);
    let n: usize = name.unicode_len();
    if range.1 - range.0 != n {
        return false;
    }
    let mut i: usize = 0;
    while i < n
        invariant
            i <= n,
            n == name@.len(),
            range.0 + n == range.1,
            range.1 <= text@.len(),
            part == text@.subrange(range.0 as int, range.1 as int),
            forall|j: int| 0 <= j < i ==> part[j] == name@[j],
        decreases n - i,
    {
        if text[range.0 + i] != name.get_char(i) {
            assert(part[i as int] != name@[i as int]);
            return false;
        }
        i += 1;
    }
    assert(part =~= name@);
    true
}

/// What a range of the text holds, if there is one.
spec fn range_value(text: Seq<char>, range: Option<(usize, usize)>) -> Option<Seq<char>> {
    match range {
        Some(r) => Some(text.subrange(r.0 as int, r.1 as int)),
        None => None,
    }
}

/// The range of the value that the text assigns to `name`.
fn find_value(text: &Vec<char>, name: &str) -> (r: Option<(usize, usize)>)
    ensures
        range_value(text@, r) == env_value(text@, name@),
        r matches Some(range) ==> range.0 <= range.1 <= text@.len(),
{
    let mut found: Option<(usize, usize)> = None;
    let mut start: usize = 0;
    let mut i: usize = 0;
    assert(text@.take(0) =~= Seq::<char>::empty());
    assert(text@.subrange(0, 0) =~= Seq::<char>::empty());
    while i < text.len()
        invariant
            start <= i <= text@.len(),
            lines_of(text@.take(i as int)).len() >= 1,
            lines_of(text@.take(i as int)).last() == text@.subrange(start as int, i as int),
            range_value(text@, found) == value_in(
                lines_of(text@.take(i as int)).drop_last(),
                name@,
            ),
            found matches Some(range) ==> range.0 <= range.1 <= text@.len(),
        decreases text@.len() - i,
    {
        let ghost before = lines_of(text@.take(i as int));
        let ghost after = lines_of(text@.take(i + 1));
        proof {
            assert(text@.take(i + 1).drop_last() =~= text@.take(i as int));
            assert(text@.take(i + 1).last() == text@[i as int]);
        }
        if text[i] == '\n' {
            match read_assignment(text, start, i) {
                Some((n, value)) => {
                    if range_is(text, n, name) {
                        found = Some(value);
                    }
                },
                None => {},
            }
            proof {
                assert(after.drop_last() =~= before);
                assert(text@.subrange(i + 1, i + 1) =~= Seq::<char>::empty());
            }
            start = i + 1;
        } else {
            proof {
                assert(after.drop_last() =~= before.drop_last());
                assert(text@.subrange(start as int, i + 1) =~= text@.subrange(
                    start as int,
                    i as int,
                ).push(text@[i as int]));
            }
        }
        i += 1;
    }
    assert(text@.take(i as int) =~= text@);
    match read_assignment(text, start, i) {
        Some((n, value)) => {
            if range_is(text, n, name) {
                found = Some(value);
            }
        },
        None => {},
    }
    found
}

/// Which credential a `.env` file lacks.
#[derive(Debug, Clone, Copy, PartialEq, Eq, Structural)]
pub enum EnvError {
    MissingSsid,
    MissingPass,
}

/// The credentials of a `.env` file.
pub struct WifiEnv {
    pub ssid: String,
    pub pass: String,
}

/// The credentials that a text assigns, name and password, or which is missing.
pub open spec fn wifi_env(text: Seq<char>) -> Result<(Seq<char>, Seq<char>), EnvError> {
    match (env_value(text, "WIFI_SSID"@), env_value(text, "WIFI_PASS"@)) {
        (None, _) => Err(EnvError::MissingSsid),
        (Some(_), None) => Err(EnvError::MissingPass),
        (Some(ssid), Some(pass)) => Ok((ssid, pass)),
    }
}

/// Reads the credentials from the contents of a `.env` file. Of several assignments to a
/// name the last one counts.
pub fn read_wifi_env(contents: &str) -> (r: Result<WifiEnv, EnvError>)
    ensures
        wifi_env(contents@) == (match r {
            Ok(env) => Ok((env.ssid@, env.pass@)),
            Err(e) => Err(e),
        }),
        match r {
            Ok(env) => {
                &&& env_value(contents@, "WIFI_SSID"@) == Some(env.ssid@)
                &&& env_value(contents@, "WIFI_PASS"@) == Some(env.pass@)
            },
            Err(EnvError::MissingSsid) => env_value(contents@, "WIFI_SSID"@) is None,
            Err(EnvError::MissingPass) => env_value(contents@, "WIFI_SSID"@) is Some && env_value(
                contents@,
                "WIFI_PASS"@,
            ) is None,
        },
{
    let text: Vec<char> = chars_of(contents);
    match find_value(&text, "WIFI_SSID") {
        None => Err(EnvError::MissingSsid),
        Some(ssid) => {
            match find_value(&text, "WIFI_PASS") {
                None => Err(EnvError::MissingPass),
                Some(pass) => {
                    Ok(
                        WifiEnv {
                            ssid: contents.substring_char(ssid.0, ssid.1).to_owned(),
                            pass: contents.substring_char(pass.0, pass.1).to_owned(),
                        },
                    )
                },
            }
        },
    }
}

/// The lines that hand the credentials of a `.env` file to the compiler.
pub fn embed_wifi_env(contents: &str) -> (r: Result<(String, String), EnvError>)
    ensures
        match wifi_env(contents@) {
            Ok((ssid, pass)) => r matches Ok((ssid_line, pass_line)) && ssid_line@
                == "cargo:rustc-env=WIFI_SSID="@ + ssid && pass_line@
                == "cargo:rustc-env=WIFI_PASS="@ + pass,
            Err(e) => r == Err::<(String, String), EnvError>(e),
        },
        match r {
            Ok((ssid_line, pass_line)) => {
                &&& env_value(contents@, "WIFI_SSID"@) matches Some(ssid)
                &&& env_value(contents@, "WIFI_PASS"@) matches Some(pass)
                &&& ssid_line@ == "cargo:rustc-env=WIFI_SSID="@ + ssid
                &&& pass_line@ == "cargo:rustc-env=WIFI_PASS="@ + pass
            },
            Err(EnvError::MissingSsid) => env_value(contents@, "WIFI_SSID"@) is None,
            Err(EnvError::MissingPass) => env_value(contents@, "WIFI_SSID"@) is Some && env_value(
                contents@,
                "WIFI_PASS"@,
            ) is None,
        },
{
    match read_wifi_env(contents) {
        Err(e) => Err(e),
        Ok(env) => {
            let mut ssid_line: String = String::from_str("cargo:rustc-env=WIFI_SSID=");
            ssid_line.append(env.ssid.as_str());
            let mut pass_line: String = String::from_str("cargo:rustc-env=WIFI_PASS=");
            pass_line.append(env.pass.as_str());
            Ok((ssid_line, pass_line))
        },
    }
}

/// A value that is read has no white space at either end.
pub proof fn law_values_are_trimmed(text: Seq<char>, name: Seq<char>)
    ensures
        env_value(text, name) matches Some(value) ==> trimmed(value) == value,
{
    lemma_value_in_trimmed(lines_of(text), name);
}

proof fn lemma_value_in_trimmed(lines: Seq<Seq<char>>, name: Seq<char>)
    ensures
        value_in(lines, name) matches Some(value) ==> trimmed(value) == value,
    decreases lines.len(),
{
    if lines.len() > 0 {
        let t = trimmed(lines.last());
        lemma_trim_twice(t.skip(next_equals(t, 0) + 1));
        lemma_value_in_trimmed(lines.drop_last(), name);
    }
}

/// Trimming twice is trimming once.
proof fn lemma_trim_twice(s: Seq<char>)
    ensures
        trimmed(trimmed(s)) == trimmed(s),
{
    lemma_trim_start_front(s);
    lemma_trim_end_keeps_front(trim_start(s));
    lemma_trim_end_back(trim_start(s));
}

/// What is trimmed in front does not start with white space.
proof fn lemma_trim_start_front(s: Seq<char>)
    ensures
        trim_start(s).len() > 0 ==> !is_white_space(trim_start(s)[0]),
    decreases s.len(),
{
    if s.len() > 0 && is_white_space(s[0]) {
        lemma_trim_start_front(s.drop_first());
    }
}

/// What is trimmed at the end does not end in white space.
proof fn lemma_trim_end_back(s: Seq<char>)
    ensures
        trim_end(s).len() > 0 ==> !is_white_space(trim_end(s).last()),
    decreases s.len(),
{
    if s.len() > 0 && is_white_space(s.last()) {
        lemma_trim_end_back(s.drop_last());
    }
}

/// Trimming at the end leaves the front as it is.
proof fn lemma_trim_end_keeps_front(s: Seq<char>)
    ensures
        trim_end(s).len() > 0 ==> trim_end(s)[0] == s[0],
    decreases s.len(),
{
    if s.len() > 0 && is_white_space(s.last()) {
        lemma_trim_end_keeps_front(s.drop_last());
    }
}

/// A line that is added to a file overrides earlier assignments to its name and leaves
/// those to other names alone.
pub proof fn law_last_assignment_wins(lines: Seq<Seq<char>>, line: Seq<char>, name: Seq<char>)
    ensures
        value_in(lines.push(line), name) == (match assignment(line) {
            Some((n, value)) if n == name => Some(value),
            _ => value_in(lines, name),
        }),
{
    assert(lines.push(line).drop_last() =~= lines);
}

/// Lines with a line feed between each two.
pub open spec fn joined(lines: Seq<Seq<char>>) -> Seq<char>
    decreases lines.len(),
{
    if lines.len() == 0 {
        Seq::empty()
    } else if lines.len() == 1 {
        lines[0]
    } else {
        joined(lines.drop_last()) + seq!['\n'] + lines.last()
    }
}

/// The string holds no line feed.
pub open spec fn is_one_line(s: Seq<char>) -> bool {
    forall|i: int| 0 <= i < s.len() ==> #[trigger] s[i] != '\n'
}

/// The lines of a text hold no line feed and, with one between each two, are the text.
pub proof fn law_lines_make_up_the_text(text: Seq<char>)
    ensures
        lines_of(text).len() >= 1,
        joined(lines_of(text)) == text,
        forall|i: int| 0 <= i < lines_of(text).len() ==> is_one_line(#[trigger] lines_of(text)[i]),
    decreases text.len(),
{
    let lines = lines_of(text);
    if text.len() == 0 {
        assert(lines =~= seq![Seq::<char>::empty()]);
        assert(joined(lines) =~= text);
    } else {
        let head = text.drop_last();
        let before = lines_of(head);
        let c = text.last();
        law_lines_make_up_the_text(head);
        assert(head.push(c) =~= text);
        if c == '\n' {
            assert(lines.drop_last() =~= before);
            assert(joined(before) + seq!['\n'] + Seq::<char>::empty() =~= text);
        } else {
            let k = before.len() - 1;
            assert(lines.last() == before.last().push(c));
            assert(lines.drop_last() =~= before.drop_last());
            assert(is_one_line(before[k]));
            assert forall|i: int| 0 <= i < lines.len() implies is_one_line(
                #[trigger] lines[i],
            ) by {
                if i < k {
                    assert(lines[i] == before[i]);
                }
            }
            if before.len() == 1 {
                assert(joined(lines) =~= text);
            } else {
                assert(joined(before.drop_last()) + seq!['\n'] + before.last().push(c) =~= (joined(
                    before.drop_last(),
                ) + seq!['\n'] + before.last()).push(c));
            }
        }
    }
}

/// What is added to a text without a line feed goes to its last line.
proof fn lemma_lines_of_extended(text: Seq<char>, more: Seq<char>)
    requires
        is_one_line(more),
    ensures
        lines_of(text + more) == lines_of(text).drop_last().push(lines_of(text).last() + more),
    decreases more.len(),
{
    law_lines_make_up_the_text(text);
    let lines = lines_of(text);
    if more.len() == 0 {
        assert(text + more =~= text);
        assert(lines.last() + more =~= lines.last());
        assert(lines.drop_last().push(lines.last()) =~= lines);
    } else {
        let less = more.drop_last();
        assert forall|i: int| 0 <= i < less.len() implies #[trigger] less[i] != '\n' by {
            assert(less[i] == more[i]);
        }
        lemma_lines_of_extended(text, less);
        assert((text + more).drop_last() =~= text + less);
        assert((text + more).last() == more.last());
        assert(more[more.len() - 1] != '\n');
        let before = lines_of(text + less);
        assert(before.drop_last() =~= lines.drop_last());
        assert((lines.last() + less).push(more.last()) =~= lines.last() + more);
    }
}

/// A text that is made of lines comes apart into the same lines.
pub proof fn law_joined_lines_come_apart(lines: Seq<Seq<char>>)
    requires
        lines.len() >= 1,
        forall|i: int| 0 <= i < lines.len() ==> is_one_line(#[trigger] lines[i]),
    ensures
        lines_of(joined(lines)) == lines,
    decreases lines.len(),
{
    let last = lines.last();
    assert(is_one_line(lines[lines.len() - 1]));
    if lines.len() == 1 {
        let none = Seq::<char>::empty();
        lemma_lines_of_extended(none, last);
        assert(none + last =~= last);
        assert(lines_of(none).drop_last().push(lines_of(none).last() + last) =~= lines);
    } else {
        let head = lines.drop_last();
        assert forall|i: int| 0 <= i < head.len() implies is_one_line(#[trigger] head[i]) by {
            assert(head[i] == lines[i]);
        }
        law_joined_lines_come_apart(head);
        let begun = joined(head) + seq!['\n'];
        assert(begun.drop_last() =~= joined(head));
        assert(begun.last() == '\n');
        assert(lines_of(begun) == head.push(Seq::empty()));
        lemma_lines_of_extended(begun, last);
        assert(head.push(Seq::<char>::empty()).drop_last() =~= head);
        assert(Seq::<char>::empty() + last =~= last);
        assert(head.push(last) =~= lines);
    }
}

/// White space is exactly what Unicode calls so: of ASCII the space and the five controls
/// from tab to carriage return, and nineteen characters beyond.
pub proof fn law_white_space_is_what_unicode_says(c: char)
    ensures
        (c as int) < 128 ==> (is_white_space(c) <==> c == ' ' || c == '\t' || c == '\n' || c
            == '\r' || c as int == 11 || c as int == 12),
        (c as int) >= 128 ==> (is_white_space(c) <==> seq![
            0x85int,
            0xa0,
            0x1680,
            0x2000,
            0x2001,
            0x2002,
            0x2003,
            0x2004,
            0x2005,
            0x2006,
            0x2007,
            0x2008,
            0x2009,
            0x200a,
            0x2028,
            0x2029,
            0x202f,
            0x205f,
            0x3000,
        ].contains(c as int)),
{
    let table = seq![
        0x85int,
        0xa0,
        0x1680,
        0x2000,
        0x2001,
        0x2002,
        0x2003,
        0x2004,
        0x2005,
        0x2006,
        0x2007,
        0x2008,
        0x2009,
        0x200a,
        0x2028,
        0x2029,
        0x202f,
        0x205f,
        0x3000,
    ];
    let n = c as int;
    if n >= 128 && is_white_space(c) {
        if n == 0x85 {
            assert(table[0] == n);
        } else if n == 0xa0 {
            assert(table[1] == n);
        } else if n == 0x1680 {
            assert(table[2] == n);
        } else if n <= 0x200a {
            assert(table[n - 0x2000 + 3] == n);
        } else if n == 0x2028 {
            assert(table[14] == n);
        } else if n == 0x2029 {
            assert(table[15] == n);
        } else if n == 0x202f {
            assert(table[16] == n);
        } else if n == 0x205f {
            assert(table[17] == n);
        } else {
            assert(table[18] == n);
        }
    }
}

/// The string is all white space.
pub open spec fn is_blank(s: Seq<char>) -> bool {
    forall|i: int| 0 <= i < s.len() ==> is_white_space(#[trigger] s[i])
}

/// The string has no white space at either end.
pub open spec fn has_bare_ends(s: Seq<char>) -> bool {
    s.len() > 0 ==> !is_white_space(s[0]) && !is_white_space(s[s.len() - 1])
}

/// White space in front is trimmed away.
proof fn lemma_trim_start_of(blank: Seq<char>, s: Seq<char>)
    requires
        is_blank(blank),
    ensures
        trim_start(blank + s) == trim_start(s),
    decreases blank.len(),
{
    if blank.len() == 0 {
        assert(blank + s =~= s);
    } else {
        let rest = blank.drop_first();
        assert forall|i: int| 0 <= i < rest.len() implies is_white_space(#[trigger] rest[i]) by {
            assert(rest[i] == blank[i + 1]);
        }
        lemma_trim_start_of(rest, s);
        assert(is_white_space(blank[0]));
        assert((blank + s).drop_first() =~= rest + s);
    }
}

/// White space at the end is trimmed away.
proof fn lemma_trim_end_of(s: Seq<char>, blank: Seq<char>)
    requires
        is_blank(blank),
    ensures
        trim_end(s + blank) == trim_end(s),
    decreases blank.len(),
{
    if blank.len() == 0 {
        assert(s + blank =~= s);
    } else {
        let rest = blank.drop_last();
        assert forall|i: int| 0 <= i < rest.len() implies is_white_space(#[trigger] rest[i]) by {
            assert(rest[i] == blank[i]);
        }
        lemma_trim_end_of(s, rest);
        assert(is_white_space(blank[blank.len() - 1]));
        assert((s + blank).drop_last() =~= s + rest);
    }
}

/// Trimming takes away all white space at both ends and nothing else.
pub proof fn law_only_white_space_is_trimmed(front: Seq<char>, s: Seq<char>, back: Seq<char>)
    requires
        is_blank(front),
        is_blank(back),
        has_bare_ends(s),
    ensures
        trimmed(front + s + back) == s,
{
    assert(front + s + back =~= front + (s + back));
    lemma_trim_start_of(front, s + back);
    if s.len() == 0 {
        assert(s + back =~= back);
        lemma_trim_start_of(back, s);
        assert(back + s =~= back);
    } else {
        assert((s + back)[0] == s[0]);
        lemma_trim_end_of(s, back);
    }
}

/// The first equals sign is found where it stands.
proof fn lemma_next_equals_found(s: Seq<char>, from: int, k: int)
    requires
        0 <= from <= k <= s.len(),
        k < s.len() ==> s[k] == '=',
        forall|i: int| from <= i < k ==> #[trigger] s[i] != '=',
    ensures
        next_equals(s, from) == k,
    decreases k - from,
{
    if from < k {
        assert(s[from] != '=');
        lemma_next_equals_found(s, from + 1, k);
    }
}

/// A line assigns what stands behind its first equals sign, whole, to what stands before
/// it: white space around the line, the name and the value does not count, and whatever
/// else the value holds does.
pub proof fn law_line_assigns_all_behind_the_sign(
    front: Seq<char>,
    name: Seq<char>,
    before: Seq<char>,
    after: Seq<char>,
    value: Seq<char>,
    back: Seq<char>,
)
    requires
        is_blank(front) && is_blank(before) && is_blank(after) && is_blank(back),
        name.len() > 0 && has_bare_ends(name),
        name[0] != '#',
        forall|i: int| 0 <= i < name.len() ==> #[trigger] name[i] != '=',
        has_bare_ends(value),
    ensures
        assignment(front + name + before + seq!['='] + after + value + back) == Some((name, value)),
{
    let line = front + name + before + seq!['='] + after + value + back;
    let left = name + before;
    let none = Seq::<char>::empty();
    let (right, rear) = if value.len() > 0 {
        (after + value, back)
    } else {
        (none, after + back)
    };
    let core = left + seq!['='] + right;
    let k = left.len() as int;
    assert(line =~= front + core + rear);
    assert(core[0] == name[0]);
    if value.len() > 0 {
        assert(core[core.len() - 1] == value[value.len() - 1]);
    } else {
        assert(core[core.len() - 1] == '=');
        assert forall|i: int| 0 <= i < rear.len() implies is_white_space(#[trigger] rear[i]) by {
            if i < after.len() {
                assert(rear[i] == after[i]);
            } else {
                assert(rear[i] == back[i - after.len()]);
            }
        }
    }
    law_only_white_space_is_trimmed(front, core, rear);
    assert forall|i: int| 0 <= i < k implies #[trigger] core[i] != '=' by {
        if i < name.len() {
            assert(core[i] == name[i]);
        } else {
            assert(core[i] == before[i - name.len()]);
            assert(is_white_space(before[i - name.len()]));
        }
    }
    assert(core[k] == '=');
    lemma_next_equals_found(core, 0, k);
    assert(core.take(k) =~= none + name + before);
    law_only_white_space_is_trimmed(none, name, before);
    assert(core.skip(k + 1) =~= right);
    if value.len() > 0 {
        assert(right =~= after + value + none);
        law_only_white_space_is_trimmed(after, value, none);
    } else {
        assert(right =~= none + value + none);
        law_only_white_space_is_trimmed(none, value, none);
        assert(value =~= none);
    }
}

/// A line without an equals sign assigns nothing.
proof fn lemma_no_equals_no_assignment(s: Seq<char>)
    requires
        forall|i: int| 0 <= i < s.len() ==> #[trigger] s[i] != '=',
    ensures
        next_equals(s, 0) == s.len(),
{
    lemma_next_equals_found(s, 0, s.len() as int);
}

/// Lines that are blank or comments, have no equals sign or no name before it assign
/// nothing.
pub proof fn law_other_lines_assign_nothing(
    front: Seq<char>,
    before: Seq<char>,
    rest: Seq<char>,
    back: Seq<char>,
)
    requires
        is_blank(front) && is_blank(before) && is_blank(back),
    ensures
        assignment(front) is None,
        has_bare_ends(seq!['#'] + rest) ==> assignment(front + (seq!['#'] + rest) + back) is None,
        has_bare_ends(rest) && (forall|i: int| 0 <= i < rest.len() ==> #[trigger] rest[i] != '=')
            ==> assignment(front + rest + back) is None,
        has_bare_ends(seq!['='] + rest) ==> assignment(front + (seq!['='] + rest) + back) is None,
{
    let none = Seq::<char>::empty();
    assert(front =~= front + none + none);
    law_only_white_space_is_trimmed(front, none, none);
    if has_bare_ends(seq!['#'] + rest) {
        law_only_white_space_is_trimmed(front, seq!['#'] + rest, back);
    }
    if has_bare_ends(rest) && (forall|i: int| 0 <= i < rest.len() ==> #[trigger] rest[i] != '=') {
        law_only_white_space_is_trimmed(front, rest, back);
        lemma_no_equals_no_assignment(rest);
    }
    if has_bare_ends(seq!['='] + rest) {
        let core = seq!['='] + rest;
        law_only_white_space_is_trimmed(front, core, back);
        lemma_next_equals_found(core, 0, 0);
        assert(core.take(0) =~= none + none + none);
        law_only_white_space_is_trimmed(none, none, none);
    }
}

/// What a file gives for a name is what the last of its lines that assigns it says:
/// whatever stands on the other lines.
pub proof fn law_file_gives_what_its_last_line_says(
    lines: Seq<Seq<char>>,
    k: int,
    name: Seq<char>,
    value: Seq<char>,
)
    requires
        lines.len() >= 1,
        forall|i: int| 0 <= i < lines.len() ==> is_one_line(#[trigger] lines[i]),
        -1 <= k < lines.len(),
        k >= 0 ==> assignment(lines[k]) == Some((name, value)),
        forall|j: int|
            k < j < lines.len() ==> (assignment(#[trigger] lines[j]) matches Some((n, _)) ==> n
                != name),
    ensures
        k >= 0 ==> env_value(joined(lines), name) == Some(value),
        k == -1 ==> env_value(joined(lines), name) is None,
{
    law_joined_lines_come_apart(lines);
    lemma_value_in_lines(lines, k, name, value);
}

/// The last line that assigns a name decides.
proof fn lemma_value_in_lines(
    lines: Seq<Seq<char>>,
    k: int,
    name: Seq<char>,
    value: Seq<char>,
)
    requires
        -1 <= k < lines.len(),
        k >= 0 ==> assignment(lines[k]) == Some((name, value)),
        forall|j: int|
            k < j < lines.len() ==> (assignment(#[trigger] lines[j]) matches Some((n, _)) ==> n
                != name),
    ensures
        k >= 0 ==> value_in(lines, name) == Some(value),
        k == -1 ==> value_in(lines, name) is None,
    decreases lines.len(),
{
    if lines.len() > 0 && k < lines.len() - 1 {
        let head = lines.drop_last();
        let last = lines[lines.len() - 1];
        assert(lines.last() == last);
        assert(assignment(last) matches Some((n, _)) ==> n != name);
        assert forall|j: int| k < j < head.len() implies (assignment(
            #[trigger] head[j],
        ) matches Some((n, _)) ==> n != name) by {
            assert(head[j] == lines[j]);
        }
        lemma_value_in_lines(head, k, name, value);
    }
}

/// A file with a line of the form name, equals sign, value gives exactly that value for the
/// name, whatever lines come before and with or without a line feed behind.
pub proof fn law_assigned_value_is_read_whole(
    earlier: Seq<Seq<char>>,
    name: Seq<char>,
    value: Seq<char>,
)
    requires
        forall|i: int| 0 <= i < earlier.len() ==> is_one_line(#[trigger] earlier[i]),
        is_one_line(name) && is_one_line(value),
        name.len() > 0 && has_bare_ends(name),
        name[0] != '#',
        forall|i: int| 0 <= i < name.len() ==> #[trigger] name[i] != '=',
        has_bare_ends(value),
    ensures
        env_value(joined(earlier.push(name + seq!['='] + value)), name) == Some(value),
        env_value(joined(earlier.push(name + seq!['='] + value)).push('\n'), name) == Some(value),
{
    let none = Seq::<char>::empty();
    let line = name + seq!['='] + value;
    let lines = earlier.push(line);
    let k = earlier.len() as int;
    law_line_assigns_all_behind_the_sign(none, name, none, none, value, none);
    assert(none + name + none + seq!['='] + none + value + none =~= line);
    assert forall|i: int| 0 <= i < line.len() implies #[trigger] line[i] != '\n' by {
        if i < name.len() {
            assert(line[i] == name[i]);
        } else if i > name.len() {
            assert(line[i] == value[i - name.len() - 1]);
        }
    }
    assert forall|i: int| 0 <= i < lines.len() implies is_one_line(#[trigger] lines[i]) by {
        if i < k {
            assert(lines[i] == earlier[i]);
        }
    }
    assert(lines[k] == line);
    law_file_gives_what_its_last_line_says(lines, k, name, value);
    let ended = lines.push(none);
    assert(ended.drop_last() =~= lines);
    assert(joined(ended) =~= joined(lines).push('\n'));
    assert forall|i: int| 0 <= i < ended.len() implies is_one_line(#[trigger] ended[i]) by {
        if i < lines.len() {
            assert(ended[i] == lines[i]);
        }
    }
    law_other_lines_assign_nothing(none, none, none, none);
    assert(ended[k] == line);
    law_file_gives_what_its_last_line_says(ended, k, name, value);
}

/// The credentials are there exactly when both names are assigned, and are what is assigned
/// to them; a missing name is reported before a missing password.
pub proof fn law_credentials_are_what_is_assigned(text: Seq<char>)
    ensures
        wifi_env(text) is Ok <==> env_value(text, "WIFI_SSID"@) is Some && env_value(
            text,
            "WIFI_PASS"@,
        ) is Some,
        wifi_env(text) matches Ok((ssid, pass)) ==> env_value(text, "WIFI_SSID"@) == Some(ssid)
            && env_value(text, "WIFI_PASS"@) == Some(pass),
        wifi_env(text) == Err::<(Seq<char>, Seq<char>), EnvError>(EnvError::MissingSsid)
            <==> env_value(text, "WIFI_SSID"@) is None,
{
}

/// A file that assigns a network's name and then its password gives both whole, whatever
/// characters they hold.
pub proof fn law_credentials_are_read_whole(ssid: Seq<char>, pass: Seq<char>)
    requires
        is_one_line(ssid) && has_bare_ends(ssid),
        is_one_line(pass) && has_bare_ends(pass),
    ensures
        wifi_env(
            "WIFI_SSID"@ + seq!['='] + ssid + seq!['\n'] + ("WIFI_PASS"@ + seq!['='] + pass),
        ) == Ok::<(Seq<char>, Seq<char>), EnvError>((ssid, pass)),
{
    reveal_strlit("WIFI_SSID");
    reveal_strlit("WIFI_PASS");
    let none = Seq::<char>::empty();
    let name1 = "WIFI_SSID"@;
    let name2 = "WIFI_PASS"@;
    let line1 = name1 + seq!['='] + ssid;
    let line2 = name2 + seq!['='] + pass;
    let lines = seq![line1, line2];
    assert(lines.drop_last() =~= seq![line1]);
    assert(joined(seq![line1]) == line1);
    assert(joined(lines) =~= line1 + seq!['\n'] + line2);
    law_line_assigns_all_behind_the_sign(none, name1, none, none, ssid, none);
    law_line_assigns_all_behind_the_sign(none, name2, none, none, pass, none);
    assert(none + name1 + none + seq!['='] + none + ssid + none =~= line1);
    assert(none + name2 + none + seq!['='] + none + pass + none =~= line2);
    assert(name1[5] != name2[5]);
    assert forall|i: int| 0 <= i < line1.len() implies #[trigger] line1[i] != '\n' by {
        if i > 9 {
            assert(line1[i] == ssid[i - 10]);
        }
    }
    assert forall|i: int| 0 <= i < line2.len() implies #[trigger] line2[i] != '\n' by {
        if i > 9 {
            assert(line2[i] == pass[i - 10]);
        }
    }
    assert(is_one_line(lines[0]) && is_one_line(lines[1]));
    law_file_gives_what_its_last_line_says(lines, 0, name1, ssid);
    law_file_gives_what_its_last_line_says(lines, 1, name2, pass);
}

} // verus!
