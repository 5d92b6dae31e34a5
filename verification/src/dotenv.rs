//! Files of `KEY=value` lines, with `export KEY=value`, `#` comments and optional quotes.
use crate::text::{chars_of, string_of};
use crate::text_map::TextMap;
use vstd::prelude::*;

verus! {

/// Whether a character has the Unicode property `White_Space`.
pub open spec fn is_space(c: char) -> bool {
    ||| '\u{9}' <= c <= '\u{d}'
    ||| c == '\u{20}'
    ||| c == '\u{85}'
    ||| c == '\u{a0}'
    ||| c == '\u{1680}'
    ||| '\u{2000}' <= c <= '\u{200a}'
    ||| c == '\u{2028}'
    ||| c == '\u{2029}'
    ||| c == '\u{202f}'
    ||| c == '\u{205f}'
    ||| c == '\u{3000}'
}

/// Whether a character has the Unicode property `White_Space`.
pub fn is_whitespace(c: char) -> (r: bool)
    ensures
        r == is_space(c),
{
    ('\u{9}' <= c && c <= '\u{d}') || c == '\u{20}' || c == '\u{85}' || c == '\u{a0}' || c
        == '\u{1680}' || ('\u{2000}' <= c && c <= '\u{200a}') || c == '\u{2028}' || c == '\u{2029}'
        || c == '\u{202f}' || c == '\u{205f}' || c == '\u{3000}'
}

/// The text without the whitespace that it starts with.
pub open spec fn trim_start(s: Seq<char>) -> Seq<char>
    decreases s.len(),
{
    if s.len() > 0 && is_space(s[0]) {
        trim_start(s.drop_first())
    } else {
        s
    }
}

/// The text without the whitespace that it ends with.
pub open spec fn trim_end(s: Seq<char>) -> Seq<char>
    decreases s.len(),
{
    if s.len() > 0 && is_space(s.last()) {
        trim_end(s.drop_last())
    } else {
        s
    }
}

/// The text without the whitespace around it.
pub open spec fn trim(s: Seq<char>) -> Seq<char> {
    trim_end(trim_start(s))
}

/// The position of the first `c` in the text, or its length where there is none.
pub open spec fn find(s: Seq<char>, c: char) -> int
    decreases s.len(),
{
    if s.len() == 0 || s[0] == c {
        0
    } else {
        1 + find(s.drop_first(), c)
    }
}

/// The text without a prefix, where it has it.
pub open spec fn without_prefix(s: Seq<char>, prefix: Seq<char>) -> Seq<char> {
    if prefix.len() <= s.len() && s.take(prefix.len() as int) == prefix {
        s.skip(prefix.len() as int)
    } else {
        s
    }
}

/// Whether the text stands between two of these quotes.
pub open spec fn quoted(s: Seq<char>, quote: char) -> bool {
    s.len() >= 2 && s[0] == quote && s.last() == quote
}

/// The text without the quotes around it, where it has them: double or single, the same on both
/// sides.
pub open spec fn unquoted(s: Seq<char>) -> Seq<char> {
    if quoted(s, '"') || quoted(s, '\'') {
        s.subrange(1, s.len() - 1)
    } else {
        s
    }
}

/// The name and the value that a line assigns. Blank lines, comments and lines without an equals
/// sign assign nothing.
pub open spec fn assignment(line: Seq<char>) -> Option<(Seq<char>, Seq<char>)> {
    let trimmed = trim(line);
    let body = without_prefix(trimmed, "export "@);
    let eq = find(body, '=');
    if trimmed.len() == 0 || trimmed[0] == '#' || eq == body.len() {
        None
    } else {
        Some((trim(body.take(eq)), unquoted(trim(body.skip(eq + 1)))))
    }
}

/// The variables after a line: what it assigns takes the place of an earlier value.
pub open spec fn assigned(
    vars: Map<Seq<char>, Seq<char>>,
    line: Seq<char>,
) -> Map<Seq<char>, Seq<char>> {
    match assignment(line) {
        Some((name, value)) => vars.insert(name, value),
        None => vars,
    }
}

/// The variables after the lines of a text, which newlines separate.
pub open spec fn variables_after(
    vars: Map<Seq<char>, Seq<char>>,
    raw: Seq<char>,
) -> Map<Seq<char>, Seq<char>>
    decreases raw.len(),
{
    let end = find(raw, '\n');
    if 0 <= end < raw.len() {
        variables_after(assigned(vars, raw.take(end)), raw.skip(end + 1))
    } else {
        assigned(vars, raw)
    }
}

/// The variables that a file sets.
pub open spec fn variables(raw: Seq<char>) -> Map<Seq<char>, Seq<char>> {
    variables_after(Map::empty(), raw)
}

/// The texts that the keys lead to.
pub open spec fn texts(vars: Map<Seq<char>, String>) -> Map<Seq<char>, Seq<char>> {
    vars.map_values(|s: String| s@)
}

/// The position that `find` gives, known by what stands there and before it.
proof fn lemma_find(s: Seq<char>, c: char, at: int)
    requires
        0 <= at <= s.len(),
        forall|i: int| 0 <= i < at ==> s[i] != c,
        at < s.len() ==> s[at] == c,
    ensures
        find(s, c) == at,
    decreases s.len(),
{
    if at > 0 {
        assert forall|i: int| 0 <= i < at - 1 implies s.drop_first()[i] != c by {
            assert(s.drop_first()[i] == s[i + 1]);
        }
        lemma_find(s.drop_first(), c, at - 1);
    }
}

/// The position of the first `c` in `chars[from..to]`, or `to` where there is none.
fn find_char(chars: &Vec<char>, from: usize, to: usize, c: char) -> (r: usize)
    requires
        from <= to <= chars@.len(),
    ensures
        from <= r <= to,
        r - from == find(chars@.subrange(from as int, to as int), c),
{
    let mut i: usize = from;
    while i < to && chars[i] != c
        invariant
            from <= i <= to <= chars@.len(),
            forall|j: int| from <= j < i ==> chars@[j] != c,
        decreases to - i,
    {
        i = i + 1;
    }
    proof {
        let s = chars@.subrange(from as int, to as int);
        assert forall|j: int| 0 <= j < i - from implies s[j] != c by {
            assert(s[j] == chars@[from + j]);
        }
        lemma_find(s, c, i - from);
    }
    i
}

/// The bounds of `chars[from..to]` without the whitespace around it.
fn trim_bounds(chars: &Vec<char>, from: usize, to: usize) -> (r: (usize, usize))
    requires
        from <= to <= chars@.len(),
    ensures
        from <= r.0 <= r.1 <= to,
        chars@.subrange(r.0 as int, r.1 as int) == trim(chars@.subrange(from as int, to as int)),
{
    let ghost s = chars@.subrange(from as int, to as int);
    let mut a: usize = from;
    while a < to && is_whitespace(chars[a])
        invariant
            from <= a <= to <= chars@.len(),
            trim_start(s) == trim_start(chars@.subrange(a as int, to as int)),
        decreases to - a,
    {
        assert(chars@.subrange(a as int, to as int).drop_first() =~= chars@.subrange(
            a + 1,
            to as int,
        ));
        a = a + 1;
    }
    let ghost t = chars@.subrange(a as int, to as int);
    let mut b: usize = to;
    while b > a && is_whitespace(chars[b - 1])
        invariant
            from <= a <= b <= to <= chars@.len(),
            trim_end(t) == trim_end(chars@.subrange(a as int, b as int)),
        decreases b,
    {
        assert(chars@.subrange(a as int, b as int).drop_last() =~= chars@.subrange(
            a as int,
            b - 1,
        ));
        b = b - 1;
    }
    (a, b)
}

/// Where `chars[from..to]` goes on after the prefix, or `from` where it does not start with it.
fn skip_prefix(chars: &Vec<char>, from: usize, to: usize, prefix: &str) -> (r: usize)
    requires
        from <= to <= chars@.len(),
    ensures
        from <= r <= to,
        chars@.subrange(r as int, to as int) == without_prefix(
            chars@.subrange(from as int, to as int),
            prefix@,
        ),
{
    let wanted: Vec<char> = chars_of(prefix);
    let ghost s = chars@.subrange(from as int, to as int);
    if wanted.len() > to - from {
        return from;
    }
    let mut i: usize = 0;
    while i < wanted.len()
        invariant
            from <= to <= chars@.len(),
            s == chars@.subrange(from as int, to as int),
            wanted@ == prefix@,
            i <= wanted@.len() <= to - from,
            forall|j: int| 0 <= j < i ==> s[j] == wanted@[j],
        decreases wanted@.len() - i,
    {
        if chars[from + i] != wanted[i] {
            proof {
                assert(s[i as int] != wanted@[i as int]);
                assert(s.take(prefix@.len() as int)[i as int] != prefix@[i as int]);
            }
            return from;
        }
        i = i + 1;
    }
    proof {
        assert(s.take(prefix@.len() as int) =~= prefix@);
        assert(s.skip(prefix@.len() as int) =~= chars@.subrange(from + i, to as int));
    }
    from + i
}

/// The name and the value that the line `chars[from..to]` assigns.
fn parse_line(chars: &Vec<char>, from: usize, to: usize) -> (r: Option<(String, String)>)
    requires
        from <= to <= chars@.len(),
    ensures
        match assignment(chars@.subrange(from as int, to as int)) {
            Some((name, value)) => r matches Some(pair) && pair.0@ == name && pair.1@ == value,
            None => r is None,
        },
{
    let (a, b): (usize, usize) = trim_bounds(chars, from, to);
    let ghost trimmed = chars@.subrange(a as int, b as int);
    if a == b || chars[a] == '#' {
        return None;
    }
    let start: usize = skip_prefix(chars, a, b, "export ");
    let ghost body = chars@.subrange(start as int, b as int);
    let eq: usize = find_char(chars, start, b, '=');
    if eq == b {
        return None;
    }
    assert(body.take(eq - start) =~= chars@.subrange(start as int, eq as int));
    assert(body.skip(eq - start + 1) =~= chars@.subrange(eq + 1, b as int));
    let (ka, kb): (usize, usize) = trim_bounds(chars, start, eq);
    let (va, vb): (usize, usize) = trim_bounds(chars, eq + 1, b);
    let ghost value = chars@.subrange(va as int, vb as int);
    let name: String = string_of(chars, ka, kb);
    if vb - va >= 2 && ((chars[va] == '"' && chars[vb - 1] == '"') || (chars[va] == '\''
        && chars[vb - 1] == '\'')) {
        assert(value.subrange(1, value.len() - 1) =~= chars@.subrange(va + 1, vb - 1));
        Some((name, string_of(chars, va + 1, vb - 1)))
    } else {
        Some((name, string_of(chars, va, vb)))
    }
}

/// The variables that a file sets. Of several values for one name the last counts.
pub fn parse_dotenv(raw: &str) -> (r: TextMap<String>)
    ensures
        texts(r@) == variables(raw@),
{
    let chars: Vec<char> = chars_of(raw);
    let mut vars: TextMap<String> = TextMap::new();
    let mut start: usize = 0;
    proof {
        assert(texts(vars@) =~= Map::empty());
        assert(chars@.skip(0) =~= chars@);
    }
    loop
        invariant_except_break
            start <= chars@.len(),
            chars@ == raw@,
            variables(raw@) == variables_after(texts(vars@), chars@.skip(start as int)),
        ensures
            texts(vars@) == variables(raw@),
        decreases chars@.len() - start,
    {
        let end: usize = find_char(&chars, start, chars.len(), '\n');
        let ghost rest = chars@.skip(start as int);
        let ghost before = vars@;
        proof {
            assert(rest =~= chars@.subrange(start as int, chars@.len() as int));
            assert(chars@.subrange(start as int, end as int) =~= rest.take(end - start));
        }
        match parse_line(&chars, start, end) {
            Some((name, value)) => {
                vars.insert(name, value);
                proof {
                    assert(texts(vars@) =~= texts(before).insert(name@, value@));
                }
            },
            None => {},
        }
        assert(texts(vars@) == assigned(texts(before), rest.take(end - start)));
        if end == chars.len() {
            assert(rest.take(end - start) =~= rest);
            break;
        }
        assert(rest.skip(end - start + 1) =~= chars@.skip(end + 1));
        start = end + 1;
    }
    vars
}

/// A value as it may be written after an equals sign: bare, or between quotes.
pub open spec fn written(value: Seq<char>, quote: Option<char>) -> Seq<char> {
    match quote {
        Some(q) => seq![q] + value + seq![q],
        None => value,
    }
}

/// A line that assigns a value to a name, with or without `export`.
pub open spec fn assigning_line(
    name: Seq<char>,
    value: Seq<char>,
    exported: bool,
    quote: Option<char>,
) -> Seq<char> {
    let plain = name + seq!['='] + written(value, quote);
    if exported {
        "export "@ + plain
    } else {
        plain
    }
}

/// What a line assigns reads back: `KEY=value` and `export KEY=value`, with the value bare, in
/// double or in single quotes, give the name that value. A value in quotes may be any text.
pub proof fn assignments_read_back(
    name: Seq<char>,
    value: Seq<char>,
    exported: bool,
    quote: Option<char>,
)
    requires
        name.len() > 0,
        name[0] != '#',
        forall|i: int| 0 <= i < name.len() ==> #[trigger] name[i] != '=' && !is_space(name[i]),
        match quote {
            Some(q) => q == '"' || q == '\'',
            None => trim(value) == value && unquoted(value) == value,
        },
    ensures
        assignment(assigning_line(name, value, exported, quote)) == Some((name, value)),
{
    reveal_strlit("export ");
    let line = assigning_line(name, value, exported, quote);
    let right = written(value, quote);
    let plain = name + seq!['='] + right;
    assert(!is_space('"') && !is_space('\'') && !is_space('=') && !is_space('e'));
    if quote is None {
        lemma_trimmed_ends(value);
    }
    assert(!is_space(line[0]));
    assert(plain.last() == (if right.len() > 0 { right.last() } else { '=' }));
    assert(!is_space(line.last()));
    assert(trim(line) == line);
    let body = without_prefix(line, "export "@);
    if exported {
        assert(line.take(7) =~= "export "@);
        assert(body =~= plain);
    } else if line.len() >= 7 && line.take(7) == "export "@ {
        assert(line.take(7)[6] == "export "@[6]);
        assert(line[6] == ' ');
        if name.len() > 6 {
            assert(line[6] == name[6]);
        } else {
            assert(line[name.len() as int] == '=');
            assert(line.take(7)[name.len() as int] == '=');
        }
        assert(false);
    }
    assert(body == plain);
    assert forall|i: int| 0 <= i < name.len() implies plain[i] != '=' by {
        assert(plain[i] == name[i]);
    }
    lemma_find(plain, '=', name.len() as int);
    assert(plain.take(name.len() as int) =~= name);
    assert(plain.skip(name.len() as int + 1) =~= right);
    assert(!is_space(name[0]) && !is_space(name.last()));
    assert(trim(name) == name);
    match quote {
        Some(q) => {
            assert(right[0] == q && right.last() == q);
            assert(trim(right) == right);
            assert(right.subrange(1, right.len() - 1) =~= value);
        },
        None => {},
    }
}

/// A text that has nothing to trim neither starts nor ends with whitespace.
proof fn lemma_trimmed_ends(s: Seq<char>)
    requires
        trim(s) == s,
    ensures
        s.len() > 0 ==> !is_space(s[0]) && !is_space(s.last()),
{
    if s.len() > 0 {
        lemma_trim_shortens(s);
        lemma_trim_shortens(s.drop_first());
        lemma_trim_shortens(s.drop_last());
        lemma_trim_shortens(trim_start(s));
    }
}

/// Trimming makes no text longer.
proof fn lemma_trim_shortens(s: Seq<char>)
    ensures
        trim_start(s).len() <= s.len(),
        trim_end(s).len() <= s.len(),
    decreases s.len(),
{
    if s.len() > 0 {
        lemma_trim_shortens(s.drop_first());
        lemma_trim_shortens(s.drop_last());
    }
}

/// A line added to a file is read after all that the file holds: what it assigns takes the place
/// of any earlier value of that name, and the other names keep theirs.
pub proof fn later_lines_override(
    vars: Map<Seq<char>, Seq<char>>,
    raw: Seq<char>,
    line: Seq<char>,
)
    requires
        !line.contains('\n'),
    ensures
        variables_after(vars, raw + seq!['\n'] + line) == assigned(
            variables_after(vars, raw),
            line,
        ),
    decreases raw.len(),
{
    let whole = raw + seq!['\n'] + line;
    let end = find(raw, '\n');
    lemma_find_bounds(raw, '\n');
    assert forall|i: int| 0 <= i < line.len() implies line[i] != '\n' by {
        assert(line.contains(line[i]));
    }
    lemma_find(line, '\n', line.len() as int);
    lemma_find(whole, '\n', end);
    if end < raw.len() {
        assert(whole.take(end) =~= raw.take(end));
        assert(whole.skip(end + 1) =~= raw.skip(end + 1) + seq!['\n'] + line);
        later_lines_override(assigned(vars, raw.take(end)), raw.skip(end + 1), line);
    } else {
        assert(whole.take(end) =~= raw);
        assert(whole.skip(end + 1) =~= line);
        assert(variables_after(vars, raw) == assigned(vars, raw));
        assert(variables_after(assigned(vars, raw), line) == assigned(assigned(vars, raw), line));
    }
}

/// What stands at the position that `find` gives, and before it.
proof fn lemma_find_bounds(s: Seq<char>, c: char)
    ensures
        0 <= find(s, c) <= s.len(),
        find(s, c) < s.len() ==> s[find(s, c)] == c,
        forall|i: int| 0 <= i < find(s, c) ==> s[i] != c,
    decreases s.len(),
{
    if s.len() > 0 && s[0] != c {
        lemma_find_bounds(s.drop_first(), c);
        assert forall|i: int| 0 <= i < find(s, c) implies s[i] != c by {
            if i > 0 {
                assert(s.drop_first()[i - 1] == s[i]);
            }
        }
    }
}

/// Whether a text is whitespace all through.
pub open spec fn all_space(s: Seq<char>) -> bool {
    forall|i: int| 0 <= i < s.len() ==> is_space(#[trigger] s[i])
}

/// Whether a text has no whitespace at either end.
pub open spec fn bare(s: Seq<char>) -> bool {
    s.len() > 0 ==> !is_space(s[0]) && !is_space(s[s.len() - 1])
}

/// Whitespace before a text makes no difference to what is left once it is trimmed there.
proof fn lemma_trim_start(before: Seq<char>, s: Seq<char>)
    requires
        all_space(before),
    ensures
        trim_start(before + s) == trim_start(s),
    decreases before.len(),
{
    if before.len() == 0 {
        assert(before + s =~= s);
    } else {
        let rest = before.drop_first();
        assert forall|i: int| 0 <= i < rest.len() implies is_space(#[trigger] rest[i]) by {
            assert(rest[i] == before[i + 1]);
        }
        assert(is_space(before[0]));
        assert((before + s).drop_first() =~= rest + s);
        lemma_trim_start(rest, s);
    }
}

/// Whitespace after a text makes no difference to what is left once it is trimmed there.
proof fn lemma_trim_end(s: Seq<char>, after: Seq<char>)
    requires
        all_space(after),
    ensures
        trim_end(s + after) == trim_end(s),
    decreases after.len(),
{
    if after.len() == 0 {
        assert(s + after =~= s);
    } else {
        let rest = after.drop_last();
        assert forall|i: int| 0 <= i < rest.len() implies is_space(#[trigger] rest[i]) by {
            assert(rest[i] == after[i]);
        }
        assert(is_space(after[after.len() - 1]));
        assert((s + after).drop_last() =~= s + rest);
        lemma_trim_end(s, rest);
    }
}

/// Trimming takes off the whitespace around a text, and nothing of the text itself.
pub proof fn trimming_takes_off_what_is_around(before: Seq<char>, s: Seq<char>, after: Seq<char>)
    requires
        all_space(before),
        all_space(after),
        bare(s),
    ensures
        trim(before + s + after) == s,
{
    assert(before + s + after =~= before + (s + after));
    lemma_trim_start(before, s + after);
    if s.len() == 0 {
        assert(s + after =~= after + s);
        lemma_trim_start(after, s);
    } else {
        assert((s + after)[0] == s[0]);
        lemma_trim_end(s, after);
    }
}

/// Whether a text can be written without quotes: it has no whitespace at its ends, and does not look
/// as if it stood between quotes itself.
pub open spec fn needs_no_quotes(value: Seq<char>) -> bool {
    &&& bare(value)
    &&& value.len() >= 2 && value[0] == value[value.len() - 1] ==> value[0] != '"' && value[0]
        != '\''
}

/// A line that assigns a value to a name, as it may be written: with or without `export`, the value
/// between quotes or not, and whitespace around all of them.
pub struct Assigning {
    pub lead: Seq<char>,
    pub exported: bool,
    pub before_name: Seq<char>,
    pub name: Seq<char>,
    pub after_name: Seq<char>,
    pub before_value: Seq<char>,
    pub value: Seq<char>,
    pub quote: Option<char>,
    pub trail: Seq<char>,
}

impl Assigning {
    /// The value with its quotes.
    pub open spec fn right(self) -> Seq<char> {
        match self.quote {
            Some(q) => seq![q] + self.value + seq![q],
            None => self.value,
        }
    }

    /// The line without the whitespace around it and without `export`.
    pub open spec fn body(self) -> Seq<char> {
        self.before_name + self.name + self.after_name + seq!['='] + self.before_value
            + self.right()
    }

    /// The line without the whitespace around it.
    pub open spec fn trimmed(self) -> Seq<char> {
        if self.exported {
            seq!['e', 'x', 'p', 'o', 'r', 't', ' '] + self.body()
        } else {
            self.body()
        }
    }

    /// The whole line.
    pub open spec fn line(self) -> Seq<char> {
        self.lead + self.trimmed() + self.trail
    }

    /// Whether this is how such a line is written: the name holds no equals sign, the line is no
    /// comment, and it starts with `export` only where it is exported. Whitespace that would stand at
    /// either end of the line is counted there.
    pub open spec fn is_written(self) -> bool {
        &&& all_space(self.lead)
        &&& all_space(self.before_name)
        &&& all_space(self.after_name)
        &&& all_space(self.before_value)
        &&& all_space(self.trail)
        &&& bare(self.name)
        &&& forall|i: int| 0 <= i < self.name.len() ==> #[trigger] self.name[i] != '='
        &&& match self.quote {
            Some(q) => q == '"' || q == '\'',
            None => needs_no_quotes(self.value),
        }
        &&& self.right().len() == 0 ==> self.before_value.len() == 0
        &&& !self.exported ==> {
            &&& self.before_name.len() == 0
            &&& self.name.len() == 0 ==> self.after_name.len() == 0
            &&& self.name.len() > 0 ==> self.name[0] != '#'
            &&& self.body().len() >= 7 ==> self.body().take(7) != seq![
                'e',
                'x',
                'p',
                'o',
                'r',
                't',
                ' ',
            ]
        }
    }
}

/// A line assigns the value that is written in it to the name that is written in it, whether it is
/// exported or not, whether the value is between double quotes, single quotes or none, and whatever
/// whitespace there is around the name, the value and the line.
pub proof fn a_line_assigns_what_is_written(a: Assigning)
    requires
        a.is_written(),
    ensures
        assignment(a.line()) == Some((a.name, a.value)),
{
    reveal_strlit("export ");
    let export = seq!['e', 'x', 'p', 'o', 'r', 't', ' '];
    assert("export "@ =~= export);
    let (middle, body, right) = (a.trimmed(), a.body(), a.right());
    assert(!is_space('"') && !is_space('\'') && !is_space('=') && !is_space('e'));
    let eq = a.before_name.len() + a.name.len() + a.after_name.len();
    let left = a.before_name + a.name + a.after_name;
    assert(body[eq as int] == '=');
    assert(bare(right));
    assert(body[body.len() - 1] == (if right.len() > 0 {
        right[right.len() - 1]
    } else {
        '='
    }));
    assert(middle[middle.len() - 1] == body[body.len() - 1]);
    if !a.exported {
        if a.name.len() > 0 {
            assert(body[0] == a.name[0]);
        } else {
            assert(body[0] == '=');
        }
    } else {
        assert(middle[0] == 'e');
    }
    assert(bare(middle));
    trimming_takes_off_what_is_around(a.lead, middle, a.trail);
    if a.exported {
        assert(middle.take(7) =~= export);
        assert(middle.skip(7) =~= body);
    }
    assert(without_prefix(middle, "export "@) == body);
    assert forall|i: int| 0 <= i < eq implies body[i] != '=' by {
        assert(body[i] == left[i]);
        if i < a.before_name.len() {
            assert(left[i] == a.before_name[i]);
        } else if i < a.before_name.len() + a.name.len() {
            assert(left[i] == a.name[i - a.before_name.len()]);
        } else {
            assert(left[i] == a.after_name[i - a.before_name.len() - a.name.len()]);
        }
    }
    lemma_find(body, '=', eq as int);
    assert(body.take(eq as int) =~= left);
    assert(body.skip(eq as int + 1) =~= a.before_value + right + Seq::<char>::empty());
    trimming_takes_off_what_is_around(a.before_name, a.name, a.after_name);
    trimming_takes_off_what_is_around(a.before_value, right, Seq::empty());
    match a.quote {
        Some(q) => {
            assert(right[0] == q && right.last() == q);
            assert(right.subrange(1, right.len() - 1) =~= a.value);
        },
        None => {},
    }
}

/// A line assigns nothing if, whitespace around it aside, it is empty, starts with a hash, or holds no
/// equals sign.
pub proof fn other_lines_assign_nothing(lead: Seq<char>, middle: Seq<char>, trail: Seq<char>)
    requires
        all_space(lead),
        all_space(trail),
        bare(middle),
        middle.len() == 0 || middle[0] == '#' || !middle.contains('='),
    ensures
        assignment(lead + middle + trail) is None,
{
    trimming_takes_off_what_is_around(lead, middle, trail);
    if !middle.contains('=') {
        let body = without_prefix(middle, "export "@);
        assert forall|i: int| 0 <= i < body.len() implies body[i] != '=' by {
            assert(middle.contains(body[i])) by {
                assert(body[i] == middle[i + middle.len() - body.len()]);
            }
        }
        lemma_find(body, '=', body.len() as int);
    }
}

/// The text that the lines make up, with a newline between one and the next.
pub open spec fn joined(lines: Seq<Seq<char>>) -> Seq<char>
    decreases lines.len(),
{
    if lines.len() == 0 {
        Seq::empty()
    } else if lines.len() == 1 {
        lines[0]
    } else {
        joined(lines.drop_last()) + seq!['\n'] + lines[lines.len() - 1]
    }
}

/// Whether these are lines: at least one, and no newline in any of them.
pub open spec fn are_lines(lines: Seq<Seq<char>>) -> bool {
    &&& lines.len() > 0
    &&& forall|i: int| 0 <= i < lines.len() ==> !(#[trigger] lines[i]).contains('\n')
}

/// Every text is made up of lines.
pub proof fn a_text_is_made_up_of_lines(raw: Seq<char>) -> (lines: Seq<Seq<char>>)
    ensures
        are_lines(lines),
        joined(lines) == raw,
    decreases raw.len(),
{
    if raw.len() == 0 {
        let lines = seq![raw];
        assert(!raw.contains('\n'));
        lines
    } else {
        let (head, c) = (raw.drop_last(), raw[raw.len() - 1]);
        let lines = a_text_is_made_up_of_lines(head);
        let n = lines.len() - 1;
        if c == '\n' {
            let more = lines.push(Seq::empty());
            assert(more.drop_last() =~= lines);
            assert(raw =~= head + seq!['\n'] + Seq::<char>::empty());
            assert forall|i: int| 0 <= i < more.len() implies !(#[trigger] more[i]).contains(
                '\n',
            ) by {
                if i < lines.len() {
                    assert(more[i] == lines[i]);
                }
            }
            more
        } else {
            let last = lines[n].push(c);
            let more = lines.drop_last().push(last);
            assert(more.drop_last() =~= lines.drop_last());
            assert forall|i: int| 0 <= i < more.len() implies !(#[trigger] more[i]).contains(
                '\n',
            ) by {
                if i < n {
                    assert(more[i] == lines[i]);
                } else if last.contains('\n') {
                    let j = choose|j: int| 0 <= j < last.len() && last[j] == '\n';
                    assert(j < lines[n].len());
                    assert(lines[n][j] == '\n');
                    assert(lines[n].contains('\n'));
                }
            }
            assert(raw =~= head.push(c));
            if n == 0 {
                assert(more[0] == last);
            } else {
                let start = joined(lines.drop_last()) + seq!['\n'];
                assert(head == start + lines[n]);
                assert(joined(more) == start + last);
                assert(start + last =~= (start + lines[n]).push(c));
            }
            more
        }
    }
}

/// A file of one line sets exactly what that line assigns.
pub proof fn a_file_of_one_line_sets_what_it_assigns(line: Seq<char>)
    requires
        !line.contains('\n'),
    ensures
        assignment(line) is None ==> variables(line) == Map::<Seq<char>, Seq<char>>::empty(),
        assignment(line) matches Some((name, value)) ==> variables(line) == Map::<
            Seq<char>,
            Seq<char>,
        >::empty().insert(name, value),
{
    assert forall|i: int| 0 <= i < line.len() implies line[i] != '\n' by {
        assert(line.contains(line[i]));
    }
    lemma_find(line, '\n', line.len() as int);
}

/// Whether a line assigns a value to this name.
pub open spec fn assigns(line: Seq<char>, name: Seq<char>) -> bool {
    assignment(line) matches Some((assigned_name, _)) && assigned_name == name
}

/// Every line of a file counts, whichever it is: a name has the value that the last line to assign it
/// gives it, and where no line assigns it, it is not set.
pub proof fn every_line_counts(lines: Seq<Seq<char>>, name: Seq<char>, index: int)
    requires
        are_lines(lines),
        0 <= index < lines.len(),
        forall|j: int| index < j < lines.len() ==> !assigns(#[trigger] lines[j], name),
    ensures
        ({
            let vars = variables(joined(lines));
            &&& assigns(lines[index], name) ==> vars.contains_pair(
                name,
                (assignment(lines[index])->0).1,
            )
            &&& (forall|j: int| 0 <= j < lines.len() ==> !assigns(#[trigger] lines[j], name))
                ==> !vars.contains_key(name)
        }),
    decreases lines.len(),
{
    let n = lines.len() - 1;
    if n == 0 {
        a_file_of_one_line_sets_what_it_assigns(lines[0]);
    } else {
        let rest = lines.drop_last();
        assert forall|i: int| 0 <= i < rest.len() implies !(#[trigger] rest[i]).contains('\n') by {
            assert(rest[i] == lines[i]);
        }
        later_lines_override(Map::empty(), joined(rest), lines[n]);
        if index < n {
            assert forall|j: int| index < j < rest.len() implies !assigns(
                #[trigger] rest[j],
                name,
            ) by {
                assert(rest[j] == lines[j]);
            }
            assert(!assigns(lines[n], name));
            every_line_counts(rest, name, index);
            if forall|j: int| 0 <= j < lines.len() ==> !assigns(#[trigger] lines[j], name) {
                assert forall|j: int| 0 <= j < rest.len() implies !assigns(
                    #[trigger] rest[j],
                    name,
                ) by {
                    assert(rest[j] == lines[j]);
                }
            }
        } else if forall|j: int| 0 <= j < lines.len() ==> !assigns(#[trigger] lines[j], name) {
            assert forall|j: int| 0 <= j < rest.len() implies !assigns(#[trigger] rest[j], name) by {
                assert(rest[j] == lines[j]);
            }
            every_line_counts(rest, name, n - 1);
            assert(!assigns(lines[n], name));
        }
    }
}

/// The texts of a map are those of its strings, under the same keys.
pub proof fn texts_are_those_of_the_strings(vars: Map<Seq<char>, String>, key: Seq<char>)
    ensures
        texts(vars).contains_key(key) <==> vars.contains_key(key),
        vars.contains_key(key) ==> texts(vars)[key] == vars[key]@,
{
}

} // verus!
