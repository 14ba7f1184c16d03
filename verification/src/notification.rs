//! The text of Windows notifications.

use vstd::prelude::*;
use vstd::string::*;
use crate::alerts;
use crate::text;

verus! {

/// The identity under which notifications are shown. The installer registers
/// the same one.
pub const APP_USER_MODEL_ID: &'static str = "DamyanPepper.NetworkMonitor";

/// A notification: a title, and one line below it.
pub struct Toast {
    pub title: String,
    pub body: String,
}

/// How a character stands in XML text.
pub open spec fn escaped_char(c: char) -> Seq<char> {
    if c == '&' {
        "&amp;"@
    } else if c == '<' {
        "&lt;"@
    } else if c == '>' {
        "&gt;"@
    } else if c == '"' {
        "&quot;"@
    } else if c == '\'' {
        "&apos;"@
    } else {
        seq![c]
    }
}

/// How a text stands in XML text.
pub open spec fn escaped(s: Seq<char>) -> Seq<char>
    decreases s.len(),
{
    if s.len() == 0 {
        Seq::empty()
    } else {
        escaped(s.drop_last()) + escaped_char(s.last())
    }
}

/// The XML of a notification.
pub open spec fn toast_markup(title: Seq<char>, body: Seq<char>) -> Seq<char> {
    "<toast><visual><binding template=\"ToastGeneric\"><text>"@ + escaped(title)
        + "</text><text>"@ + escaped(body) + "</text></binding></visual></toast>"@
}

/// Each alert as a name and a percentage, with commas between them.
pub open spec fn alert_list(alerts: Seq<(Seq<char>, int)>) -> Seq<char>
    decreases alerts.len(),
{
    if alerts.len() == 0 {
        Seq::empty()
    } else {
        let before = alert_list(alerts.drop_last());
        let lead = if alerts.len() == 1 {
            before
        } else {
            before + ", "@
        };
        lead + alerts.last().0 + ": "@ + text::decimal(alerts.last().1 as nat) + "%"@
    }
}

/// Escapes the characters that XML text cannot hold.
pub fn escape_xml(value: &str) -> (r: String)
    ensures
        r@ == escaped(value@),
{
    let chars = text::chars_of(value);
    let mut out = String::new();
    let mut i: usize = 0;
    assert(chars@.take(0) =~= Seq::<char>::empty());
    while i < chars.len()
        invariant
            i <= chars@.len(),
            out@ == escaped(chars@.take(i as int)),
        decreases chars@.len() - i,
    {
        let c = chars[i];
        let ghost before = out@;
        assert(chars@.take(i + 1).drop_last() =~= chars@.take(i as int));
        if c == '&' {
            out.append("&amp;");
        } else if c == '<' {
            out.append("&lt;");
        } else if c == '>' {
            out.append("&gt;");
        } else if c == '"' {
            out.append("&quot;");
        } else if c == '\'' {
            out.append("&apos;");
        } else {
            out.push(c);
        }
        assert(out@ =~= before + escaped_char(c));
        i += 1;
    }
    assert(chars@.take(chars@.len() as int) =~= chars@);
    out
}

/// The XML of a notification.
pub fn toast_xml(toast: &Toast) -> (r: String)
    ensures
        r@ == toast_markup(toast.title@, toast.body@),
{
    let title = escape_xml(toast.title.as_str());
    let body = escape_xml(toast.body.as_str());
    let mut out = String::new();
    out.append("<toast><visual><binding template=\"ToastGeneric\"><text>");
    out.append(title.as_str());
    out.append("</text><text>");
    out.append(body.as_str());
    out.append("</text></binding></visual></toast>");
    assert(out@ =~= toast_markup(toast.title@, toast.body@));
    out
}

/// The notification for targets that have just gone over the threshold.
pub fn packet_loss_alert(targets: &[(String, u32)]) -> (r: Toast)
    ensures
        r.title@ == "High packet loss detected"@,
        r.body@ == alert_list(alerts::alert_views(targets@)),
{
    let ghost all = alerts::alert_views(targets@);
    let mut out = String::new();
    let mut i: usize = 0;
    assert(all.take(0) =~= Seq::<(Seq<char>, int)>::empty());
    while i < targets.len()
        invariant
            i <= targets@.len(),
            all == alerts::alert_views(targets@),
            out@ == alert_list(all.take(i as int)),
        decreases targets@.len() - i,
    {
        let ghost upto = all.take(i + 1);
        let ghost before = out@;
        proof {
            assert(upto.drop_last() =~= all.take(i as int));
            assert(upto.last() == (targets@[i as int].0@, targets@[i as int].1 as int));
        }
        if i > 0 {
            out.append(", ");
        }
        out.append(targets[i].0.as_str());
        out.append(": ");
        text::push_decimal(&mut out, targets[i].1 as u64);
        out.append("%");
        assert(out@ =~= alert_list(upto));
        i += 1;
    }
    assert(all.take(all.len() as int) =~= all);
    Toast { title: "High packet loss detected".to_owned(), body: out }
}

/// The notification with which delivery is tested.
pub fn test_notification() -> (r: Toast)
    ensures
        r.title@ == "Network Monitor test"@,
        r.body@ == "Notifications are configured correctly."@,
{
    Toast {
        title: "Network Monitor test".to_owned(),
        body: "Notifications are configured correctly.".to_owned(),
    }
}

/// A text in 16-bit units, ended by a zero.
pub fn wide(units: Vec<u16>) -> (r: Vec<u16>)
    ensures
        r@ == units@.push(0),
{
    let mut out = units;
    out.push(0);
    out
}

// ---------------------------------------------------------------------------
// Laws
// ---------------------------------------------------------------------------
/// Escaping goes character by character: a concatenation is escaped part by
/// part.
pub proof fn law_escape_part_by_part(a: Seq<char>, b: Seq<char>)
    ensures
        escaped(a + b) == escaped(a) + escaped(b),
    decreases b.len(),
{
    if b.len() == 0 {
        assert(a + b =~= a);
        assert(escaped(a) + escaped(b) =~= escaped(a));
    } else {
        law_escape_part_by_part(a, b.drop_last());
        assert((a + b).drop_last() =~= a + b.drop_last());
        assert(escaped(a + b) =~= escaped(a) + escaped(b));
    }
}

/// An escaped text holds no character that would end it or open a tag.
pub proof fn law_escaped_is_plain_text(s: Seq<char>)
    ensures
        !escaped(s).contains('<'),
        !escaped(s).contains('>'),
        !escaped(s).contains('"'),
        !escaped(s).contains('\''),
    decreases s.len(),
{
    if s.len() > 0 {
        law_escaped_is_plain_text(s.drop_last());
        reveal_strlit("&amp;");
        reveal_strlit("&lt;");
        reveal_strlit("&gt;");
        reveal_strlit("&quot;");
        reveal_strlit("&apos;");
        let before = escaped(s.drop_last());
        let piece = escaped_char(s.last());
        assert forall|i: int| 0 <= i < escaped(s).len() implies {
            let c = #[trigger] escaped(s)[i];
            c != '<' && c != '>' && c != '"' && c != '\''
        } by {
            if i < before.len() {
                assert(escaped(s)[i] == before[i]);
                assert(before.contains(before[i]));
            } else {
                assert(escaped(s)[i] == piece[i - before.len()]);
            }
        }
    }
}

/// The text that an escaped text stands for: the entities are read back, and
/// every other character stands for itself.
pub open spec fn unescaped(s: Seq<char>) -> Seq<char>
    decreases s.len(),
{
    if s.len() == 0 {
        Seq::empty()
    } else if text::occurs_at(s, "&amp;"@, 0) && "&amp;"@.len() > 0 {
        seq!['&'] + unescaped(s.skip("&amp;"@.len() as int))
    } else if text::occurs_at(s, "&lt;"@, 0) && "&lt;"@.len() > 0 {
        seq!['<'] + unescaped(s.skip("&lt;"@.len() as int))
    } else if text::occurs_at(s, "&gt;"@, 0) && "&gt;"@.len() > 0 {
        seq!['>'] + unescaped(s.skip("&gt;"@.len() as int))
    } else if text::occurs_at(s, "&quot;"@, 0) && "&quot;"@.len() > 0 {
        seq!['"'] + unescaped(s.skip("&quot;"@.len() as int))
    } else if text::occurs_at(s, "&apos;"@, 0) && "&apos;"@.len() > 0 {
        seq!['\''] + unescaped(s.skip("&apos;"@.len() as int))
    } else {
        seq![s[0]] + unescaped(s.drop_first())
    }
}

/// What a reader of the XML sees is the text that was escaped.
pub proof fn law_escape_reads_back(s: Seq<char>)
    ensures
        unescaped(escaped(s)) == s,
    decreases s.len(),
{
    if s.len() > 0 {
        reveal_strlit("&amp;");
        reveal_strlit("&lt;");
        reveal_strlit("&gt;");
        reveal_strlit("&quot;");
        reveal_strlit("&apos;");
        let c = s[0];
        let rest = s.drop_first();
        law_escape_reads_back(rest);
        assert(seq![c] + rest =~= s);
        law_escape_part_by_part(seq![c], rest);
        assert(seq![c].drop_last() =~= Seq::<char>::empty());
        assert(escaped(seq![c].drop_last()) =~= Seq::<char>::empty());
        assert(escaped(seq![c]) =~= escaped_char(c));
        let piece = escaped_char(c);
        let tail = escaped(rest);
        let whole = piece + tail;
        assert(escaped(s) == whole);
        assert(whole[0] == piece[0]);
        assert(whole.skip(piece.len() as int) =~= tail);
        if c == '&' || c == '<' || c == '>' || c == '"' || c == '\'' {
            assert(whole.subrange(0, piece.len() as int) =~= piece);
            assert(text::occurs_at(whole, piece, 0));
            if c == '<' {
                assert(whole[1] == 'l');
                lemma_other_entity(whole, "&amp;"@, 1);
            } else if c == '>' {
                assert(whole[1] == 'g');
                lemma_other_entity(whole, "&amp;"@, 1);
                lemma_other_entity(whole, "&lt;"@, 1);
            } else if c == '"' {
                assert(whole[1] == 'q');
                lemma_other_entity(whole, "&amp;"@, 1);
                lemma_other_entity(whole, "&lt;"@, 1);
                lemma_other_entity(whole, "&gt;"@, 1);
            } else if c == '\'' {
                assert(whole[2] == 'p');
                assert(whole[1] == 'a');
                lemma_other_entity(whole, "&amp;"@, 2);
                lemma_other_entity(whole, "&lt;"@, 1);
                lemma_other_entity(whole, "&gt;"@, 1);
                lemma_other_entity(whole, "&quot;"@, 1);
            }
        } else {
            assert(whole[0] == c);
            lemma_other_entity(whole, "&amp;"@, 0);
            lemma_other_entity(whole, "&lt;"@, 0);
            lemma_other_entity(whole, "&gt;"@, 0);
            lemma_other_entity(whole, "&quot;"@, 0);
            lemma_other_entity(whole, "&apos;"@, 0);
            assert(whole.drop_first() =~= tail);
        }
    }
}

/// A text that differs from an entity at some position does not begin with it.
proof fn lemma_other_entity(s: Seq<char>, entity: Seq<char>, i: int)
    requires
        0 <= i < entity.len(),
        i < s.len() ==> s[i] != entity[i],
    ensures
        !text::occurs_at(s, entity, 0),
{
    if text::occurs_at(s, entity, 0) {
        assert(s.subrange(0, entity.len() as int)[i] == s[i]);
    }
}

/// Two texts that are escaped the same are the same.
pub proof fn law_escape_keeps_texts_apart(a: Seq<char>, b: Seq<char>)
    ensures
        escaped(a) == escaped(b) ==> a == b,
{
    law_escape_reads_back(a);
    law_escape_reads_back(b);
}

/// The list of alerts tells the name and the loss of each, in order, with a comma and a
/// space between each two.
pub proof fn law_every_alert_is_listed(list: Seq<(Seq<char>, int)>, name: Seq<char>, percent: nat)
    ensures
        alert_list(Seq::empty()).len() == 0,
        alert_list(seq![(name, percent as int)]) == name + ": "@ + text::decimal(percent) + "%"@,
        list.len() > 0 ==> alert_list(list.push((name, percent as int))) == alert_list(list) + ", "@
            + name + ": "@ + text::decimal(percent) + "%"@,
{
    let one = seq![(name, percent as int)];
    assert(one.drop_last() =~= Seq::<(Seq<char>, int)>::empty());
    assert(alert_list(one.drop_last()) =~= Seq::<char>::empty());
    assert(alert_list(one) =~= name + ": "@ + text::decimal(percent) + "%"@);
    assert(list.push((name, percent as int)).drop_last() =~= list);
}

/// Each of the five characters that have a meaning in XML is written as its entity, and
/// every other character as itself, one after the other.
pub proof fn law_each_character_is_escaped(s: Seq<char>, c: char)
    ensures
        escaped(Seq::empty()).len() == 0,
        escaped(s.push('&')) == escaped(s) + "&amp;"@,
        escaped(s.push('<')) == escaped(s) + "&lt;"@,
        escaped(s.push('>')) == escaped(s) + "&gt;"@,
        escaped(s.push('"')) == escaped(s) + "&quot;"@,
        escaped(s.push('\'')) == escaped(s) + "&apos;"@,
        c != '&' && c != '<' && c != '>' && c != '"' && c != '\'' ==> escaped(s.push(c))
            == escaped(s).push(c),
{
    assert(s.push('&').drop_last() =~= s);
    assert(s.push('<').drop_last() =~= s);
    assert(s.push('>').drop_last() =~= s);
    assert(s.push('"').drop_last() =~= s);
    assert(s.push('\'').drop_last() =~= s);
    assert(s.push(c).drop_last() =~= s);
    assert(escaped(s) + seq![c] =~= escaped(s).push(c));
}

/// A notification shows its title and its text, each in an element of its own, and what
/// a reader sees of them is what they are.
pub proof fn law_toast_shows_title_and_text(title: Seq<char>, body: Seq<char>)
    ensures
        ({
            let head = "<toast><visual><binding template=\"ToastGeneric\"><text>"@;
            let middle = "</text><text>"@;
            let tail = "</text></binding></visual></toast>"@;
            let first = toast_markup(title, body).skip(head.len() as int).take(
                escaped(title).len() as int,
            );
            let second = toast_markup(title, body).skip(
                (head.len() + escaped(title).len() + middle.len()) as int,
            ).take(escaped(body).len() as int);
            &&& unescaped(first) == title
            &&& unescaped(second) == body
            &&& toast_markup(title, body).len() == head.len() + escaped(title).len() + middle.len()
                + escaped(body).len() + tail.len()
            &&& toast_markup(title, body).take(head.len() as int) == head
            &&& text::occurs_at(
                toast_markup(title, body),
                middle,
                (head.len() + escaped(title).len()) as int,
            )
            &&& text::occurs_at(
                toast_markup(title, body),
                tail,
                toast_markup(title, body).len() - tail.len(),
            )
        }),
{
    let head = "<toast><visual><binding template=\"ToastGeneric\"><text>"@;
    let middle = "</text><text>"@;
    let tail = "</text></binding></visual></toast>"@;
    let s = toast_markup(title, body);
    let at = (head.len() + escaped(title).len()) as int;
    assert(s.skip(head.len() as int).take(escaped(title).len() as int) =~= escaped(title));
    assert(s.skip(at + middle.len()).take(escaped(body).len() as int) =~= escaped(body));
    assert(s.take(head.len() as int) =~= head);
    assert(s.subrange(at, at + middle.len()) =~= middle);
    assert(s.subrange(s.len() - tail.len(), s.len() as int) =~= tail);
    law_escape_reads_back(title);
    law_escape_reads_back(body);
}

} // verus!
