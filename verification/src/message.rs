//! The text of a notification.
use crate::codex::{Observation, ObservationView};
use crate::text::{
    chars_of, decimal, is_numeral, numbers_are_written_as_numerals, push_decimal,
};
use vstd::prelude::*;
use vstd::string::StringExecFns;

verus! {

/// How a character is written in HTML text.
pub open spec fn escaped_char(c: char) -> Seq<char> {
    if c == '&' {
        "&amp;"@
    } else if c == '<' {
        "&lt;"@
    } else if c == '>' {
        "&gt;"@
    } else {
        seq![c]
    }
}

/// How a text is written in HTML.
pub open spec fn escaped(s: Seq<char>) -> Seq<char>
    decreases s.len(),
{
    if s.len() == 0 {
        s
    } else {
        escaped(s.drop_last()) + escaped_char(s.last())
    }
}

/// Writes a text in HTML.
pub fn escape_html(s: &str) -> (r: String)
    ensures
        r@ == escaped(s@),
{
    let chars: Vec<char> = chars_of(s);
    let mut out: String = String::new();
    let mut i: usize = 0;
    assert(chars@.take(0) =~= Seq::empty());
    while i < chars.len()
        invariant
            i <= chars@.len(),
            out@ == escaped(chars@.take(i as int)),
        decreases chars@.len() - i,
    {
        let c: char = chars[i];
        proof {
            assert(chars@.take(i + 1).drop_last() =~= chars@.take(i as int));
        }
        if c == '&' {
            out.append("&amp;");
        } else if c == '<' {
            out.append("&lt;");
        } else if c == '>' {
            out.append("&gt;");
        } else {
            let ghost before = out@;
            out.push(c);
            assert(out@ =~= before + seq![c]);
        }
        i = i + 1;
    }
    assert(chars@.take(i as int) =~= chars@);
    out
}

/// Text that has been escaped opens no tag and closes none.
pub proof fn escaped_text_holds_no_tags(s: Seq<char>)
    ensures
        !escaped(s).contains('<'),
        !escaped(s).contains('>'),
    decreases s.len(),
{
    if s.len() > 0 {
        escaped_text_holds_no_tags(s.drop_last());
        reveal_strlit("&amp;");
        reveal_strlit("&lt;");
        reveal_strlit("&gt;");
        let head = escaped(s.drop_last());
        let tail = escaped_char(s.last());
        assert forall|i: int| 0 <= i < escaped(s).len() implies #[trigger] escaped(s)[i] != '<'
            && escaped(s)[i] != '>' by {
            if i < head.len() {
                assert(head.contains(head[i]));
            } else {
                assert(escaped(s)[i] == tail[i - head.len()]);
            }
        }
    }
}

/// A span of seconds, as it is told: "6d 4h", "3h 12m", "15m", "less than a minute".
pub open spec fn duration_text(secs: int) -> Seq<char> {
    let d = (secs / 86400) as nat;
    let h = ((secs % 86400) / 3600) as nat;
    let m = ((secs % 3600) / 60) as nat;
    if secs <= 60 {
        "less than a minute"@
    } else if d == 0 && h == 0 {
        decimal(m) + "m"@
    } else if d == 0 {
        decimal(h) + "h "@ + decimal(m) + "m"@
    } else {
        decimal(d) + "d "@ + decimal(h) + "h"@
    }
}

/// "6d 4h" / "3h 12m" / "less than a minute"
pub fn human_duration(secs: i64) -> (r: String)
    ensures
        r@ == duration_text(secs as int),
{
    if secs <= 60 {
        return "less than a minute".to_string();
    }
    let secs: u64 = secs as u64;
    let d: u64 = secs / 86400;
    let h: u64 = (secs % 86400) / 3600;
    let m: u64 = (secs % 3600) / 60;
    let mut out: String = String::new();
    proof {
        assert forall|s: Seq<char>| #[trigger] (Seq::<char>::empty() + s) == s by {
            assert(Seq::<char>::empty() + s =~= s);
        }
    }
    if d == 0 && h == 0 {
        push_decimal(&mut out, m);
        out.append("m");
    } else if d == 0 {
        push_decimal(&mut out, h);
        out.append("h ");
        push_decimal(&mut out, m);
        out.append("m");
    } else {
        push_decimal(&mut out, d);
        out.append("d ");
        push_decimal(&mut out, h);
        out.append("h");
    }
    out
}

/// The notification of a refill: which limit, what was used of it, and what is known of its
/// window. `previous_used` is the usage before, as text.
pub open spec fn refill_text(o: ObservationView, previous_used: Seq<char>, now: int) -> Seq<char> {
    let head = "✅ <b>Codex limit back to 100%</b>\n\n<b>Limit:</b> "@ + escaped(o.limit_id)
        + "\n<b>Window:</b> "@ + escaped(o.label) + "\n<b>Was:</b> "@ + previous_used
        + "% used → <b>now:</b> 0% used (100% available)"@;
    let with_length = match o.window_duration_mins {
        Some(mins) => head + "\n<b>Window length:</b> "@ + decimal(mins as nat) + " min"@,
        None => head,
    };
    match o.resets_at {
        Some(resets_at) if resets_at > now => with_length + "\n<b>Next reset:</b> in "@
            + duration_text(resets_at - now),
        _ => with_length,
    }
}

/// The notification of a refill, sent at the time `now`. `previous_used` is the usage before,
/// rounded to a whole percentage and written as text.
pub fn refill_message(obs: &Observation, previous_used: &str, now: i64) -> (r: String)
    requires
        obs.resets_at matches Some(resets_at) ==> resets_at - now <= i64::MAX,
    ensures
        r@ == refill_text(obs@, previous_used@, now as int),
{
    let mut msg: String = "✅ <b>Codex limit back to 100%</b>\n\n<b>Limit:</b> ".to_string();
    msg.append(escape_html(obs.limit_id.as_str()).as_str());
    msg.append("\n<b>Window:</b> ");
    msg.append(escape_html(obs.label.as_str()).as_str());
    msg.append("\n<b>Was:</b> ");
    msg.append(previous_used);
    msg.append("% used → <b>now:</b> 0% used (100% available)");
    match obs.window_duration_mins {
        Some(mins) => {
            msg.append("\n<b>Window length:</b> ");
            push_decimal(&mut msg, mins);
            msg.append(" min");
        },
        None => {},
    }
    match obs.resets_at {
        Some(resets_at) => {
            if resets_at > now {
                msg.append("\n<b>Next reset:</b> in ");
                msg.append(human_duration(resets_at - now).as_str());
            }
        },
        None => {},
    }
    msg
}

/// Text is escaped one character at a time: the ampersand and the two angle brackets are written as
/// what stands for them in HTML, and every other character as itself.
pub proof fn text_is_escaped_one_character_at_a_time(a: Seq<char>, b: Seq<char>)
    ensures
        escaped(a + b) == escaped(a) + escaped(b),
        a.len() == 0 ==> escaped(a).len() == 0,
        a == seq!['&'] ==> escaped(a) == seq!['&', 'a', 'm', 'p', ';'],
        a == seq!['<'] ==> escaped(a) == seq!['&', 'l', 't', ';'],
        a == seq!['>'] ==> escaped(a) == seq!['&', 'g', 't', ';'],
        a.len() == 1 && a[0] != '&' && a[0] != '<' && a[0] != '>' ==> escaped(a) == a,
    decreases b.len(),
{
    if b.len() == 0 {
        assert(a + b =~= a);
        assert(escaped(a) + escaped(b) =~= escaped(a));
    } else {
        let rest = b.drop_last();
        text_is_escaped_one_character_at_a_time(a, rest);
        assert((a + b).drop_last() =~= a + rest);
        assert((escaped(a) + escaped(rest)) + escaped_char(b.last()) =~= escaped(a) + (escaped(rest)
            + escaped_char(b.last())));
    }
    if a.len() == 1 {
        reveal_with_fuel(escaped, 2);
        assert(a.drop_last() =~= Seq::empty());
        reveal_strlit("&amp;");
        reveal_strlit("&lt;");
        reveal_strlit("&gt;");
        assert(escaped(a) =~= escaped_char(a[0]));
        assert(a =~= seq![a[0]]);
        assert("&amp;"@ =~= seq!['&', 'a', 'm', 'p', ';']);
        assert("&lt;"@ =~= seq!['&', 'l', 't', ';']);
        assert("&gt;"@ =~= seq!['&', 'g', 't', ';']);
    }
}

/// The text that an escaped text stands for.
pub open spec fn unescaped(s: Seq<char>) -> Seq<char>
    decreases s.len(),
{
    if s.len() == 0 {
        s
    } else if s[0] != '&' {
        seq![s[0]] + unescaped(s.drop_first())
    } else if s.len() >= 5 && s[1] == 'a' {
        seq!['&'] + unescaped(s.skip(5))
    } else if s.len() >= 4 && s[1] == 'l' {
        seq!['<'] + unescaped(s.skip(4))
    } else if s.len() >= 4 {
        seq!['>'] + unescaped(s.skip(4))
    } else {
        s
    }
}

/// Escaped text reads back as the text that was escaped, so that no two texts look the same.
pub proof fn escaped_text_reads_back(s: Seq<char>)
    ensures
        unescaped(escaped(s)) == s,
    decreases s.len(),
{
    if s.len() > 0 {
        let (first, rest) = (s.take(1), s.drop_first());
        assert(s =~= first + rest);
        assert(first =~= seq![s[0]]);
        text_is_escaped_one_character_at_a_time(first, rest);
        escaped_text_reads_back(rest);
        let whole = escaped(s);
        assert(whole.skip(escaped(first).len() as int) =~= escaped(rest));
        assert(whole[0] == escaped(first)[0]);
        if s[0] == '&' || s[0] == '<' || s[0] == '>' {
            assert(whole[1] == escaped(first)[1]);
        } else {
            assert(whole.drop_first() =~= escaped(rest));
        }
    }
}

/// A span of time is told by its two largest units, rounded down: minutes below an hour, hours and
/// minutes below a day, and days and hours from then on. Up to a minute it has no number.
pub proof fn spans_are_told_by_their_largest_units(secs: int) -> (numerals: (Seq<char>, Seq<char>))
    ensures
        ({
            let (a, b) = numerals;
            let told = duration_text(secs);
            &&& secs <= 60 ==> told == "less than a minute"@
            &&& 60 < secs < 3600 ==> is_numeral(a, (secs / 60) as nat) && told == a + "m"@
            &&& 3600 <= secs < 86400 ==> {
                &&& is_numeral(a, (secs / 3600) as nat)
                &&& is_numeral(b, (secs / 60 - 60 * (secs / 3600)) as nat)
                &&& told == a + "h "@ + b + "m"@
            }
            &&& secs >= 86400 ==> {
                &&& is_numeral(a, (secs / 86400) as nat)
                &&& is_numeral(b, (secs / 3600 - 24 * (secs / 86400)) as nat)
                &&& told == a + "d "@ + b + "h"@
            }
        }),
{
    let d = (secs / 86400) as nat;
    let h = ((secs % 86400) / 3600) as nat;
    let m = ((secs % 3600) / 60) as nat;
    numbers_are_written_as_numerals(d);
    numbers_are_written_as_numerals(h);
    numbers_are_written_as_numerals(m);
    if secs <= 60 {
        (Seq::empty(), Seq::empty())
    } else if secs < 3600 {
        assert(d == 0 && h == 0 && m == secs / 60);
        (decimal(m), Seq::empty())
    } else if secs < 86400 {
        assert(d == 0 && h == secs / 3600 && m == secs / 60 - 60 * (secs / 3600));
        (decimal(h), decimal(m))
    } else {
        assert(h == secs / 3600 - 24 * (secs / 86400));
        (decimal(d), decimal(h))
    }
}

/// The message names the limit and its window, escaped, and the usage before. Where the length of the
/// window is known, a line gives it in minutes, as a decimal numeral; and where a reset is to come, a
/// last line gives the time until then.
pub proof fn the_message_tells_what_is_known(
    o: ObservationView,
    previous_used: Seq<char>,
    now: int,
) -> (parts: (Seq<char>, Seq<char>, Seq<char>))
    ensures
        ({
            let (digits, length_line, reset_line) = parts;
            &&& refill_text(o, previous_used, now)
                == "✅ <b>Codex limit back to 100%</b>\n\n<b>Limit:</b> "@ + escaped(o.limit_id)
                + "\n<b>Window:</b> "@ + escaped(o.label) + "\n<b>Was:</b> "@ + previous_used
                + "% used → <b>now:</b> 0% used (100% available)"@ + length_line + reset_line
            &&& o.window_duration_mins matches Some(mins) ==> is_numeral(digits, mins as nat)
                && length_line == "\n<b>Window length:</b> "@ + digits + " min"@
            &&& o.window_duration_mins is None ==> length_line.len() == 0
            &&& o.resets_at matches Some(resets_at) ==> {
                &&& resets_at > now ==> reset_line == "\n<b>Next reset:</b> in "@ + duration_text(
                    resets_at - now,
                )
                &&& resets_at <= now ==> reset_line.len() == 0
            }
            &&& o.resets_at is None ==> reset_line.len() == 0
        }),
{
    let nothing = Seq::<char>::empty();
    assert forall|s: Seq<char>| #[trigger] (s + nothing) == s by {
        assert(s + nothing =~= s);
    }
    assert forall|a: Seq<char>, b: Seq<char>, c: Seq<char>| #[trigger] (a + (b + c)) == a + b + c by {
        assert(a + (b + c) =~= a + b + c);
    }
    let digits = match o.window_duration_mins {
        Some(mins) => decimal(mins as nat),
        None => nothing,
    };
    let length_line = match o.window_duration_mins {
        Some(mins) => "\n<b>Window length:</b> "@ + digits + " min"@,
        None => nothing,
    };
    let reset_line = match o.resets_at {
        Some(resets_at) if resets_at > now => "\n<b>Next reset:</b> in "@ + duration_text(
            resets_at - now,
        ),
        _ => nothing,
    };
    if let Some(mins) = o.window_duration_mins {
        numbers_are_written_as_numerals(mins as nat);
    }
    (digits, length_line, reset_line)
}

/// Windows of different lengths are told apart: the messages differ, be all else the same.
pub proof fn windows_of_different_lengths_are_told_apart(
    o: ObservationView,
    length: Option<u64>,
    previous_used: Seq<char>,
    now: int,
)
    requires
        o.window_duration_mins != length,
    ensures
        refill_text(o, previous_used, now) != refill_text(
            ObservationView { window_duration_mins: length, ..o },
            previous_used,
            now,
        ),
{
    let p = ObservationView { window_duration_mins: length, ..o };
    let (digits, line, reset) = the_message_tells_what_is_known(o, previous_used, now);
    let (other_digits, other_line, other_reset) = the_message_tells_what_is_known(
        p,
        previous_used,
        now,
    );
    let head = "✅ <b>Codex limit back to 100%</b>\n\n<b>Limit:</b> "@ + escaped(o.limit_id)
        + "\n<b>Window:</b> "@ + escaped(o.label) + "\n<b>Was:</b> "@ + previous_used
        + "% used → <b>now:</b> 0% used (100% available)"@;
    let (a, b) = (refill_text(o, previous_used, now), refill_text(p, previous_used, now));
    assert(a == head + line + reset);
    assert(b == head + other_line + other_reset);
    if a == b {
        assert(reset =~= other_reset);
        assert(a.len() == head.len() + line.len() + reset.len());
        assert(b.len() == head.len() + other_line.len() + other_reset.len());
        assert(line.len() == other_line.len());
        assert(line =~= a.subrange(head.len() as int, (head.len() + line.len()) as int));
        assert(other_line =~= b.subrange(head.len() as int, (head.len() + line.len()) as int));
        reveal_strlit(" min");
        if o.window_duration_mins is Some && length is Some {
            let start = "\n<b>Window length:</b> "@.len();
            assert(digits =~= line.subrange(start as int, line.len() - 4));
            assert(other_digits =~= other_line.subrange(start as int, line.len() - 4));
        }
    }
}

} // verus!
