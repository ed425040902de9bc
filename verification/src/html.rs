//! A readable approximation of an HTML body: tags dropped, block tags turned
//! into line breaks, common entities decoded.
use vstd::prelude::*;

use crate::text;
use crate::text::{full_lines, joined, lowered, pieces, replaced, trimmed, white_space};

verus! {

/// `s` with the common HTML entities replaced by what they stand for, `&nbsp;`
/// first and then, on what results, each of the others in turn.
pub open spec fn decoded(s: Seq<char>) -> Seq<char> {
    let s = replaced(s, "&nbsp;"@, " "@);
    let s = replaced(s, "&amp;"@, "&"@);
    let s = replaced(s, "&lt;"@, "<"@);
    let s = replaced(s, "&gt;"@, ">"@);
    let s = replaced(s, "&quot;"@, "\""@);
    let s = replaced(s, "&#39;"@, "'"@);
    replaced(s, "&#x27;"@, "'"@)
}

/// `s` without the slashes at its start.
pub open spec fn without_slashes(s: Seq<char>) -> Seq<char>
    decreases s.len(),
{
    if s.len() > 0 && s[0] == '/' {
        without_slashes(s.skip(1))
    } else {
        s
    }
}

/// Whether a tag with this name starts a new line.
pub open spec fn starts_block(name: Seq<char>) -> bool {
    ||| "br"@.is_prefix_of(name)
    ||| "p"@.is_prefix_of(name)
    ||| "div"@.is_prefix_of(name)
    ||| "li"@.is_prefix_of(name)
    ||| "tr"@.is_prefix_of(name)
    ||| "h1"@.is_prefix_of(name)
    ||| "h2"@.is_prefix_of(name)
    ||| "h3"@.is_prefix_of(name)
}

/// Whether the tag with this content, opening or closing, starts a new line.
pub open spec fn breaks_line(tag: Seq<char>) -> bool {
    starts_block(lowered(trimmed(without_slashes(tag))))
}

/// What has been read of an HTML text: the text outside tags, and the content
/// of the tag that is still open, if one is.
pub struct Scan {
    pub shown: Seq<char>,
    pub tag: Option<Seq<char>>,
}

/// The scan after one more character.
pub open spec fn scan_step(scan: Scan, c: char) -> Scan {
    match scan.tag {
        _ if c == '<' => Scan { shown: scan.shown, tag: Some(seq![]) },
        Some(tag) if c == '>' => Scan {
            shown: if breaks_line(tag) {
                scan.shown.push('\n')
            } else {
                scan.shown
            },
            tag: None,
        },
        Some(tag) => Scan { shown: scan.shown, tag: Some(tag.push(c)) },
        None => Scan { shown: scan.shown.push(c), tag: None },
    }
}

/// The scan after the whole of `html`.
pub open spec fn scanned(html: Seq<char>) -> Scan
    decreases html.len(),
{
    if html.len() == 0 {
        Scan { shown: seq![], tag: None }
    } else {
        scan_step(scanned(html.drop_last()), html.last())
    }
}

/// The lines of the readable text.
pub open spec fn readable_lines(html: Seq<char>) -> Seq<Seq<char>> {
    full_lines(pieces(decoded(scanned(html).shown), '\n'))
}

/// The readable text of `html`.
pub open spec fn readable(html: Seq<char>) -> Seq<char> {
    joined(readable_lines(html), "\n"@)
}

/// Decodes the common HTML entities.
pub fn decode_html_entities(text: &str) -> (r: String)
    ensures
        r@ == decoded(text@),
{
    proof {
        reveal_strlit("&nbsp;");
        reveal_strlit("&amp;");
        reveal_strlit("&lt;");
        reveal_strlit("&gt;");
        reveal_strlit("&quot;");
        reveal_strlit("&#39;");
        reveal_strlit("&#x27;");
    }
    let s = text::replace(text, "&nbsp;", " ");
    let s = text::replace(s.as_str(), "&amp;", "&");
    let s = text::replace(s.as_str(), "&lt;", "<");
    let s = text::replace(s.as_str(), "&gt;", ">");
    let s = text::replace(s.as_str(), "&quot;", "\"");
    let s = text::replace(s.as_str(), "&#39;", "'");
    text::replace(s.as_str(), "&#x27;", "'")
}

/// Whether the tag with this content starts a new line.
fn tag_breaks_line(tag: &Vec<char>) -> (r: bool)
    ensures
        r == breaks_line(tag@),
{
    let mut a: usize = 0;
    assert(tag@.skip(0) =~= tag@);
    while a < tag.len() && tag[a] == '/'
        invariant
            a <= tag@.len(),
            without_slashes(tag@) == without_slashes(tag@.skip(a as int)),
        decreases tag@.len() - a,
    {
        assert(tag@.skip(a as int).skip(1) =~= tag@.skip(a + 1));
        a += 1;
    }
    assert(without_slashes(tag@) == tag@.skip(a as int));
    assert(tag@.skip(a as int) =~= tag@.subrange(a as int, tag@.len() as int));
    let (from, to) = text::trim_range(tag.as_slice(), a, tag.len());
    let name = text::to_lower(text::string_of(tag.as_slice(), from, to).as_str());
    let name = name.as_str();
    text::starts_with(name, "br") || text::starts_with(name, "p") || text::starts_with(name, "div")
        || text::starts_with(name, "li") || text::starts_with(name, "tr") || text::starts_with(
        name,
        "h1",
    ) || text::starts_with(name, "h2") || text::starts_with(name, "h3")
}

/// Turns an HTML body into readable text.
pub fn html_to_text(html: &str) -> (r: String)
    ensures
        r@ == readable(html@),
{
    let chars = text::chars_of(html);
    let mut shown = String::new();
    let mut in_tag = false;
    let mut tag: Vec<char> = Vec::new();
    let mut i: usize = 0;
    assert(html@.take(0) =~= seq![]);
    assert(shown@ =~= scanned(html@.take(0)).shown);
    while i < chars.len()
        invariant
            i <= chars@.len(),
            chars@ == html@,
            shown@ == scanned(html@.take(i as int)).shown,
            match scanned(html@.take(i as int)).tag {
                Some(t) => in_tag && tag@ == t,
                None => !in_tag,
            },
        decreases chars@.len() - i,
    {
        let ch = chars[i];
        assert(html@.take(i + 1).drop_last() =~= html@.take(i as int));
        if ch == '<' {
            in_tag = true;
            tag.clear();
            assert(tag@ =~= seq![]);
        } else if ch == '>' && in_tag {
            if tag_breaks_line(&tag) {
                shown.push('\n');
            }
            in_tag = false;
        } else if in_tag {
            tag.push(ch);
        } else {
            shown.push(ch);
        }
        i += 1;
    }
    assert(html@.take(html@.len() as int) =~= html@);
    let lines = text::nonempty_lines(decode_html_entities(shown.as_str()).as_str());
    text::join(&lines, "\n")
}

/// Every line of a readable text is non-empty, has no white space at its ends
/// and holds no line feed: there are no blank lines and no indentation.
pub proof fn law_readable_lines_are_full(html: Seq<char>)
    ensures
        forall|i: int|
            0 <= i < readable_lines(html).len() ==> {
                let line = #[trigger] readable_lines(html)[i];
                &&& line.len() > 0
                &&& !white_space(line.first())
                &&& !white_space(line.last())
                &&& !line.contains('\n')
            },
{
    let lines = pieces(decoded(scanned(html).shown), '\n');
    text::lemma_pieces(decoded(scanned(html).shown), '\n');
    text::lemma_full_lines(lines);
    assert forall|i: int| 0 <= i < readable_lines(html).len() implies {
        let line = #[trigger] readable_lines(html)[i];
        &&& line.len() > 0
        &&& !white_space(line.first())
        &&& !white_space(line.last())
        &&& !line.contains('\n')
    } by {
        let line = readable_lines(html)[i];
        let k = choose|k: int| 0 <= k < lines.len() && line == trimmed(#[trigger] lines[k]);
        text::lemma_trimmed(lines[k]);
        let (a, b) = choose|a: int, b: int|
            0 <= a <= b <= lines[k].len() && trimmed(lines[k]) == #[trigger] lines[k].subrange(a, b);
        if line.contains('\n') {
            let j = choose|j: int| 0 <= j < line.len() && line[j] == '\n';
            assert(lines[k][a + j] == '\n');
        }
    }
}

/// Markup does not reach the text: what is read outside tags holds no `<`.
pub proof fn law_no_tag_is_shown(html: Seq<char>)
    ensures
        !scanned(html).shown.contains('<'),
    decreases html.len(),
{
    if html.len() > 0 {
        law_no_tag_is_shown(html.drop_last());
        let before = scanned(html.drop_last()).shown;
        let after = scanned(html).shown;
        if after.contains('<') {
            let i = choose|i: int| 0 <= i < after.len() && after[i] == '<';
            assert(before[i] == '<');
        }
    }
}

/// A text without an ampersand has nothing to decode.
pub proof fn law_no_entity_is_kept(s: Seq<char>)
    requires
        !s.contains('&'),
    ensures
        decoded(s) == s,
{
    reveal_strlit("&nbsp;");
    reveal_strlit("&amp;");
    reveal_strlit("&lt;");
    reveal_strlit("&gt;");
    reveal_strlit("&quot;");
    reveal_strlit("&#39;");
    reveal_strlit("&#x27;");
    text::lemma_replaced_absent(s, "&nbsp;"@, " "@);
    text::lemma_replaced_absent(s, "&amp;"@, "&"@);
    text::lemma_replaced_absent(s, "&lt;"@, "<"@);
    text::lemma_replaced_absent(s, "&gt;"@, ">"@);
    text::lemma_replaced_absent(s, "&quot;"@, "\""@);
    text::lemma_replaced_absent(s, "&#39;"@, "'"@);
    text::lemma_replaced_absent(s, "&#x27;"@, "'"@);
}

/// A text without `<` is read as it stands.
proof fn lemma_scanned_plain(s: Seq<char>)
    requires
        !s.contains('<'),
    ensures
        scanned(s) == (Scan { shown: s, tag: None }),
    decreases s.len(),
{
    if s.len() > 0 {
        assert(s.contains(s.last()));
        assert(!s.drop_last().contains('<')) by {
            if s.drop_last().contains('<') {
                let i = choose|i: int| 0 <= i < s.drop_last().len() && s.drop_last()[i] == '<';
                assert(s[i] == '<');
            }
        }
        lemma_scanned_plain(s.drop_last());
        assert(s.drop_last().push(s.last()) =~= s);
    } else {
        assert(s =~= seq![]);
    }
}

/// A single line of plain text, with no tag, no entity and no white space at
/// its ends, is its own readable text.
pub proof fn law_plain_line_is_kept(s: Seq<char>)
    requires
        s.len() > 0,
        !s.contains('<'),
        !s.contains('&'),
        !s.contains('\n'),
        !white_space(s.first()),
        !white_space(s.last()),
    ensures
        readable(s) == s,
{
    lemma_scanned_plain(s);
    law_no_entity_is_kept(s);
    text::lemma_one_piece(s, '\n');
    text::lemma_trimmed_fixed(s);
    assert(seq![s].drop_last() =~= seq![]);
    assert(full_lines(seq![s]) =~= seq![s]) by {
        reveal_with_fuel(full_lines, 2);
    }
}

/// Of a text with no tag and no entity the readable text is its lines, each
/// without the white space at its ends and none of them empty, and reading that
/// again changes nothing.
pub proof fn law_plain_text_keeps_its_lines(s: Seq<char>)
    requires
        !s.contains('<'),
        !s.contains('&'),
    ensures
        readable(s) == joined(full_lines(pieces(s, '\n')), "\n"@),
        readable(readable(s)) == readable(s),
{
    reveal_strlit("\n");
    lemma_scanned_plain(s);
    law_no_entity_is_kept(s);
    let cut = pieces(s, '\n');
    let lines = full_lines(cut);
    let r = joined(lines, "\n"@);
    law_readable_lines_are_full(s);
    assert(readable_lines(s) == lines);
    text::lemma_full_lines(cut);
    text::lemma_absent_from_pieces(s, '\n', '<');
    text::lemma_absent_from_pieces(s, '\n', '&');
    assert forall|i: int| 0 <= i < lines.len() implies !(#[trigger] lines[i]).contains('<')
        && !lines[i].contains('&') by {
        let k = choose|k: int| 0 <= k < cut.len() && lines[i] == trimmed(#[trigger] cut[k]);
        text::lemma_trimmed(cut[k]);
        let (a, b) = choose|a: int, b: int|
            0 <= a <= b <= cut[k].len() && trimmed(cut[k]) == #[trigger] cut[k].subrange(a, b);
        assert forall|c: char| lines[i].contains(c) implies cut[k].contains(c) by {
            let j = choose|j: int| 0 <= j < lines[i].len() && lines[i][j] == c;
            assert(cut[k][a + j] == c);
        }
    }
    text::lemma_absent_from_joined(lines, "\n"@, '<');
    text::lemma_absent_from_joined(lines, "\n"@, '&');
    lemma_scanned_plain(r);
    law_no_entity_is_kept(r);
    assert("\n"@ =~= seq!['\n']);
    if lines.len() > 0 {
        text::lemma_joined_pieces(lines, '\n');
        text::lemma_full_lines_kept(lines);
    } else {
        text::lemma_one_piece(r, '\n');
        assert(trimmed(r) =~= seq![]);
        assert(seq![r].drop_last() =~= seq![]);
        assert(full_lines(seq![r]) =~= seq![]) by {
            reveal_with_fuel(full_lines, 2);
        }
    }
}

/// Going on with the same text from the same state gives the same scan.
proof fn lemma_scan_goes_on(x: Seq<char>, y: Seq<char>, rest: Seq<char>)
    requires
        scanned(x) == scanned(y),
    ensures
        scanned(x + rest) == scanned(y + rest),
    decreases rest.len(),
{
    if rest.len() == 0 {
        assert(x + rest =~= x);
        assert(y + rest =~= y);
    } else {
        let front = rest.drop_last();
        lemma_scan_goes_on(x, y, front);
        assert((x + rest).drop_last() =~= x + front);
        assert((y + rest).drop_last() =~= y + front);
        assert((x + rest).last() == rest.last());
        assert((y + rest).last() == rest.last());
    }
}

/// Within a tag, what is read becomes its content.
proof fn lemma_scan_tag(a: Seq<char>, t: Seq<char>)
    requires
        !a.contains('<'),
        !t.contains('<'),
        !t.contains('>'),
    ensures
        scanned(a + "<"@ + t) == (Scan { shown: a, tag: Some(t) }),
    decreases t.len(),
{
    reveal_strlit("<");
    let s = a + "<"@ + t;
    if t.len() == 0 {
        lemma_scanned_plain(a);
        assert(s.drop_last() =~= a);
        assert(s.last() == '<');
        assert(t =~= seq![]);
    } else {
        let front = t.drop_last();
        assert(t.contains(t.last()));
        assert forall|c: char| !t.contains(c) implies !(#[trigger] front.contains(c)) by {
            if front.contains(c) {
                let i = choose|i: int| 0 <= i < front.len() && front[i] == c;
                assert(t[i] == c);
            }
        }
        lemma_scan_tag(a, front);
        assert(s.drop_last() =~= a + "<"@ + front);
        assert(s.last() == t.last());
        assert(front.push(t.last()) =~= t);
    }
}

/// A tag vanishes from the text, and leaves a line break behind exactly if it
/// starts a block; what is before and behind it is read as if it had not been
/// there.
pub proof fn law_tags_vanish(a: Seq<char>, tag: Seq<char>, b: Seq<char>)
    requires
        !a.contains('<'),
        !tag.contains('<'),
        !tag.contains('>'),
    ensures
        breaks_line(tag) ==> readable(a + "<"@ + tag + ">"@ + b) == readable(a + "\n"@ + b),
        !breaks_line(tag) ==> readable(a + "<"@ + tag + ">"@ + b) == readable(a + b),
{
    reveal_strlit(">");
    reveal_strlit("\n");
    lemma_scan_tag(a, tag);
    lemma_scanned_plain(a);
    let open = a + "<"@ + tag;
    let closed = open + ">"@;
    assert(closed.drop_last() =~= open);
    assert(closed.last() == '>');
    if breaks_line(tag) {
        let line = a + "\n"@;
        assert(line =~= a.push('\n'));
        assert(!line.contains('<')) by {
            if line.contains('<') {
                let i = choose|i: int| 0 <= i < line.len() && line[i] == '<';
                assert(a[i] == '<');
            }
        }
        lemma_scanned_plain(line);
        lemma_scan_goes_on(closed, line, b);
    } else {
        lemma_scan_goes_on(closed, a, b);
    }
}

/// A tag that is not closed swallows the rest of the text, and one that is cut off
/// by another is as if it had not begun.
pub proof fn law_unclosed_tags_are_dropped(a: Seq<char>, tag: Seq<char>, b: Seq<char>)
    requires
        !a.contains('<'),
        !tag.contains('<'),
        !tag.contains('>'),
    ensures
        readable(a + "<"@ + tag) == readable(a),
        readable(a + "<"@ + tag + "<"@ + b) == readable(a + "<"@ + b),
{
    reveal_strlit("<");
    lemma_scan_tag(a, tag);
    lemma_scan_tag(a, seq![]);
    lemma_scanned_plain(a);
    let open = a + "<"@ + tag;
    let again = open + "<"@;
    let once = a + "<"@;
    assert(once + seq![] =~= once);
    assert(again.drop_last() =~= open);
    assert(again.last() == '<');
    lemma_scan_goes_on(again, once, b);
}

/// A tag, opening or closing, starts a block exactly if its name, in any case and
/// without what is around it, starts with that of a line break, a paragraph, a
/// division, a list item, a table row or a heading of the first three ranks.
pub proof fn law_which_tags_start_blocks(slashes: Seq<char>, inner: Seq<char>)
    requires
        forall|i: int| 0 <= i < slashes.len() ==> #[trigger] slashes[i] == '/',
        inner.len() > 0 ==> inner[0] != '/',
    ensures
        ({
            let name = lowered(trimmed(inner));
            breaks_line(slashes + inner) <==> {
                ||| name.len() >= 2 && name.take(2) == "br"@
                ||| name.len() >= 1 && name.take(1) == "p"@
                ||| name.len() >= 3 && name.take(3) == "div"@
                ||| name.len() >= 2 && name.take(2) == "li"@
                ||| name.len() >= 2 && name.take(2) == "tr"@
                ||| name.len() >= 2 && name.take(2) == "h1"@
                ||| name.len() >= 2 && name.take(2) == "h2"@
                ||| name.len() >= 2 && name.take(2) == "h3"@
            }
        }),
{
    reveal_strlit("br");
    reveal_strlit("p");
    reveal_strlit("div");
    reveal_strlit("li");
    reveal_strlit("tr");
    reveal_strlit("h1");
    reveal_strlit("h2");
    reveal_strlit("h3");
    lemma_slashes(slashes, inner);
}

/// The slashes at the start of a tag are passed over.
proof fn lemma_slashes(slashes: Seq<char>, inner: Seq<char>)
    requires
        forall|i: int| 0 <= i < slashes.len() ==> #[trigger] slashes[i] == '/',
        inner.len() > 0 ==> inner[0] != '/',
    ensures
        without_slashes(slashes + inner) == inner,
    decreases slashes.len(),
{
    if slashes.len() == 0 {
        assert(slashes + inner =~= inner);
    } else {
        let rest = slashes.skip(1);
        assert forall|i: int| 0 <= i < rest.len() implies #[trigger] rest[i] == '/' by {
            assert(rest[i] == slashes[i + 1]);
        }
        lemma_slashes(rest, inner);
        assert(slashes[0] == '/');
        assert((slashes + inner).skip(1) =~= rest + inner);
    }
}

/// A text without tags is decoded, and of what that gives every line is kept,
/// without the white space at its ends, that is not blank.
pub proof fn law_text_without_tags_is_decoded(s: Seq<char>)
    requires
        !s.contains('<'),
    ensures
        readable(s) == joined(full_lines(pieces(decoded(s), '\n')), "\n"@),
{
    lemma_scanned_plain(s);
}

/// Where a pattern does not start within the first of two texts, only the second
/// is looked through for it.
proof fn lemma_replaced_behind(x: Seq<char>, b: Seq<char>, pat: Seq<char>, with: Seq<char>)
    requires
        pat.len() > 0,
        forall|k: int| 0 <= k < x.len() ==> !pat.is_prefix_of(#[trigger] (x + b).skip(k)),
    ensures
        replaced(x + b, pat, with) == x + replaced(b, pat, with),
    decreases x.len(),
{
    if x.len() == 0 {
        assert(x + b =~= b);
        assert(x + replaced(b, pat, with) =~= replaced(b, pat, with));
    } else {
        let s = x + b;
        let y = x.skip(1);
        assert(s.skip(0) =~= s);
        assert(!pat.is_prefix_of(s));
        assert(s.skip(1) =~= y + b);
        assert forall|k: int| 0 <= k < y.len() implies !pat.is_prefix_of(
            #[trigger] (y + b).skip(k),
        ) by {
            assert((y + b).skip(k) =~= s.skip(k + 1));
        }
        lemma_replaced_behind(y, b, pat, with);
        assert(seq![s[0]] + (y + replaced(b, pat, with)) =~= x + replaced(b, pat, with));
    }
}

/// A text without an ampersand is passed over.
proof fn lemma_passed_over(x: Seq<char>, b: Seq<char>, pat: Seq<char>, with: Seq<char>)
    requires
        pat.len() > 0,
        pat[0] == '&',
        !x.contains('&'),
    ensures
        replaced(x + b, pat, with) == x + replaced(b, pat, with),
{
    assert forall|k: int| 0 <= k < x.len() implies !pat.is_prefix_of(#[trigger] (x + b).skip(k)) by {
        if pat.is_prefix_of((x + b).skip(k)) {
            assert((x + b).skip(k)[0] == pat[0]);
            assert(x[k] == '&');
        }
    }
    lemma_replaced_behind(x, b, pat, with);
}

/// An entity that differs from the one that is looked for is passed over.
proof fn lemma_other_entity(x: Seq<char>, b: Seq<char>, pat: Seq<char>, with: Seq<char>, j: int)
    requires
        pat.len() > 0,
        pat[0] == '&',
        0 < j < x.len(),
        j < pat.len(),
        x[j] != pat[j],
        forall|k: int| 1 <= k < x.len() ==> #[trigger] x[k] != '&',
    ensures
        replaced(x + b, pat, with) == x + replaced(b, pat, with),
{
    assert forall|k: int| 0 <= k < x.len() implies !pat.is_prefix_of(#[trigger] (x + b).skip(k)) by {
        let t = (x + b).skip(k);
        if pat.is_prefix_of(t) {
            assert(t[0] == pat[0]);
            assert(t[0] == x[k]);
            assert(k == 0);
            assert(t[j] == pat[j]);
            assert(t[j] == x[j]);
        }
    }
    lemma_replaced_behind(x, b, pat, with);
}

/// An entity that is looked for is replaced, and the search goes on behind it.
proof fn lemma_this_entity(b: Seq<char>, pat: Seq<char>, with: Seq<char>)
    requires
        pat.len() > 0,
    ensures
        replaced(pat + b, pat, with) == with + replaced(b, pat, with),
{
    assert(pat =~= (pat + b).subrange(0, pat.len() as int));
    assert((pat + b).skip(pat.len() as int) =~= b);
}

/// What is before the first ampersand stays as it is, and what follows is decoded
/// by itself.
pub proof fn law_decoding_starts_at_the_ampersand(a: Seq<char>, b: Seq<char>)
    requires
        !a.contains('&'),
    ensures
        decoded(a + b) == a + decoded(b),
{
    reveal_strlit("&nbsp;");
    reveal_strlit("&amp;");
    reveal_strlit("&lt;");
    reveal_strlit("&gt;");
    reveal_strlit("&quot;");
    reveal_strlit("&#39;");
    reveal_strlit("&#x27;");
    let b1 = replaced(b, "&nbsp;"@, " "@);
    let b2 = replaced(b1, "&amp;"@, "&"@);
    let b3 = replaced(b2, "&lt;"@, "<"@);
    let b4 = replaced(b3, "&gt;"@, ">"@);
    let b5 = replaced(b4, "&quot;"@, "\""@);
    let b6 = replaced(b5, "&#39;"@, "'"@);
    lemma_passed_over(a, b, "&nbsp;"@, " "@);
    lemma_passed_over(a, b1, "&amp;"@, "&"@);
    lemma_passed_over(a, b2, "&lt;"@, "<"@);
    lemma_passed_over(a, b3, "&gt;"@, ">"@);
    lemma_passed_over(a, b4, "&quot;"@, "\""@);
    lemma_passed_over(a, b5, "&#39;"@, "'"@);
    lemma_passed_over(a, b6, "&#x27;"@, "'"@);
}

/// `&nbsp;` is decoded to what it stands for, wherever it stands.
proof fn lemma_decoded_space(b: Seq<char>)
    ensures
        decoded("&nbsp;"@ + b) == " "@ + decoded(b),
{
    reveal_strlit("&nbsp;");
    reveal_strlit("&amp;");
    reveal_strlit("&lt;");
    reveal_strlit("&gt;");
    reveal_strlit("&quot;");
    reveal_strlit("&#39;");
    reveal_strlit("&#x27;");
    reveal_strlit(" ");
    reveal_strlit("&");
    reveal_strlit("<");
    reveal_strlit(">");
    reveal_strlit("\"");
    reveal_strlit("'");
    let b1 = replaced(b, "&nbsp;"@, " "@);
    let b2 = replaced(b1, "&amp;"@, "&"@);
    let b3 = replaced(b2, "&lt;"@, "<"@);
    let b4 = replaced(b3, "&gt;"@, ">"@);
    let b5 = replaced(b4, "&quot;"@, "\""@);
    let b6 = replaced(b5, "&#39;"@, "'"@);
    lemma_this_entity(b, "&nbsp;"@, " "@);
    lemma_passed_over(" "@, b1, "&amp;"@, "&"@);
    lemma_passed_over(" "@, b2, "&lt;"@, "<"@);
    lemma_passed_over(" "@, b3, "&gt;"@, ">"@);
    lemma_passed_over(" "@, b4, "&quot;"@, "\""@);
    lemma_passed_over(" "@, b5, "&#39;"@, "'"@);
    lemma_passed_over(" "@, b6, "&#x27;"@, "'"@);
}

/// `&lt;` is decoded to what it stands for, wherever it stands.
proof fn lemma_decoded_less_than(b: Seq<char>)
    ensures
        decoded("&lt;"@ + b) == "<"@ + decoded(b),
{
    reveal_strlit("&nbsp;");
    reveal_strlit("&amp;");
    reveal_strlit("&lt;");
    reveal_strlit("&gt;");
    reveal_strlit("&quot;");
    reveal_strlit("&#39;");
    reveal_strlit("&#x27;");
    reveal_strlit(" ");
    reveal_strlit("&");
    reveal_strlit("<");
    reveal_strlit(">");
    reveal_strlit("\"");
    reveal_strlit("'");
    let b1 = replaced(b, "&nbsp;"@, " "@);
    let b2 = replaced(b1, "&amp;"@, "&"@);
    let b3 = replaced(b2, "&lt;"@, "<"@);
    let b4 = replaced(b3, "&gt;"@, ">"@);
    let b5 = replaced(b4, "&quot;"@, "\""@);
    let b6 = replaced(b5, "&#39;"@, "'"@);
    lemma_other_entity("&lt;"@, b, "&nbsp;"@, " "@, 1);
    lemma_other_entity("&lt;"@, b1, "&amp;"@, "&"@, 1);
    lemma_this_entity(b2, "&lt;"@, "<"@);
    lemma_passed_over("<"@, b3, "&gt;"@, ">"@);
    lemma_passed_over("<"@, b4, "&quot;"@, "\""@);
    lemma_passed_over("<"@, b5, "&#39;"@, "'"@);
    lemma_passed_over("<"@, b6, "&#x27;"@, "'"@);
}

/// `&gt;` is decoded to what it stands for, wherever it stands.
proof fn lemma_decoded_greater_than(b: Seq<char>)
    ensures
        decoded("&gt;"@ + b) == ">"@ + decoded(b),
{
    reveal_strlit("&nbsp;");
    reveal_strlit("&amp;");
    reveal_strlit("&lt;");
    reveal_strlit("&gt;");
    reveal_strlit("&quot;");
    reveal_strlit("&#39;");
    reveal_strlit("&#x27;");
    reveal_strlit(" ");
    reveal_strlit("&");
    reveal_strlit("<");
    reveal_strlit(">");
    reveal_strlit("\"");
    reveal_strlit("'");
    let b1 = replaced(b, "&nbsp;"@, " "@);
    let b2 = replaced(b1, "&amp;"@, "&"@);
    let b3 = replaced(b2, "&lt;"@, "<"@);
    let b4 = replaced(b3, "&gt;"@, ">"@);
    let b5 = replaced(b4, "&quot;"@, "\""@);
    let b6 = replaced(b5, "&#39;"@, "'"@);
    lemma_other_entity("&gt;"@, b, "&nbsp;"@, " "@, 1);
    lemma_other_entity("&gt;"@, b1, "&amp;"@, "&"@, 1);
    lemma_other_entity("&gt;"@, b2, "&lt;"@, "<"@, 1);
    lemma_this_entity(b3, "&gt;"@, ">"@);
    lemma_passed_over(">"@, b4, "&quot;"@, "\""@);
    lemma_passed_over(">"@, b5, "&#39;"@, "'"@);
    lemma_passed_over(">"@, b6, "&#x27;"@, "'"@);
}

/// `&quot;` is decoded to what it stands for, wherever it stands.
proof fn lemma_decoded_double_quote(b: Seq<char>)
    ensures
        decoded("&quot;"@ + b) == "\""@ + decoded(b),
{
    reveal_strlit("&nbsp;");
    reveal_strlit("&amp;");
    reveal_strlit("&lt;");
    reveal_strlit("&gt;");
    reveal_strlit("&quot;");
    reveal_strlit("&#39;");
    reveal_strlit("&#x27;");
    reveal_strlit(" ");
    reveal_strlit("&");
    reveal_strlit("<");
    reveal_strlit(">");
    reveal_strlit("\"");
    reveal_strlit("'");
    let b1 = replaced(b, "&nbsp;"@, " "@);
    let b2 = replaced(b1, "&amp;"@, "&"@);
    let b3 = replaced(b2, "&lt;"@, "<"@);
    let b4 = replaced(b3, "&gt;"@, ">"@);
    let b5 = replaced(b4, "&quot;"@, "\""@);
    let b6 = replaced(b5, "&#39;"@, "'"@);
    lemma_other_entity("&quot;"@, b, "&nbsp;"@, " "@, 1);
    lemma_other_entity("&quot;"@, b1, "&amp;"@, "&"@, 1);
    lemma_other_entity("&quot;"@, b2, "&lt;"@, "<"@, 1);
    lemma_other_entity("&quot;"@, b3, "&gt;"@, ">"@, 1);
    lemma_this_entity(b4, "&quot;"@, "\""@);
    lemma_passed_over("\""@, b5, "&#39;"@, "'"@);
    lemma_passed_over("\""@, b6, "&#x27;"@, "'"@);
}

/// `&#39;` is decoded to what it stands for, wherever it stands.
proof fn lemma_decoded_apostrophe(b: Seq<char>)
    ensures
        decoded("&#39;"@ + b) == "'"@ + decoded(b),
{
    reveal_strlit("&nbsp;");
    reveal_strlit("&amp;");
    reveal_strlit("&lt;");
    reveal_strlit("&gt;");
    reveal_strlit("&quot;");
    reveal_strlit("&#39;");
    reveal_strlit("&#x27;");
    reveal_strlit(" ");
    reveal_strlit("&");
    reveal_strlit("<");
    reveal_strlit(">");
    reveal_strlit("\"");
    reveal_strlit("'");
    let b1 = replaced(b, "&nbsp;"@, " "@);
    let b2 = replaced(b1, "&amp;"@, "&"@);
    let b3 = replaced(b2, "&lt;"@, "<"@);
    let b4 = replaced(b3, "&gt;"@, ">"@);
    let b5 = replaced(b4, "&quot;"@, "\""@);
    let b6 = replaced(b5, "&#39;"@, "'"@);
    lemma_other_entity("&#39;"@, b, "&nbsp;"@, " "@, 1);
    lemma_other_entity("&#39;"@, b1, "&amp;"@, "&"@, 1);
    lemma_other_entity("&#39;"@, b2, "&lt;"@, "<"@, 1);
    lemma_other_entity("&#39;"@, b3, "&gt;"@, ">"@, 1);
    lemma_other_entity("&#39;"@, b4, "&quot;"@, "\""@, 1);
    lemma_this_entity(b5, "&#39;"@, "'"@);
    lemma_passed_over("'"@, b6, "&#x27;"@, "'"@);
}

/// `&#x27;` is decoded to what it stands for, wherever it stands.
proof fn lemma_decoded_hex_apostrophe(b: Seq<char>)
    ensures
        decoded("&#x27;"@ + b) == "'"@ + decoded(b),
{
    reveal_strlit("&nbsp;");
    reveal_strlit("&amp;");
    reveal_strlit("&lt;");
    reveal_strlit("&gt;");
    reveal_strlit("&quot;");
    reveal_strlit("&#39;");
    reveal_strlit("&#x27;");
    reveal_strlit(" ");
    reveal_strlit("&");
    reveal_strlit("<");
    reveal_strlit(">");
    reveal_strlit("\"");
    reveal_strlit("'");
    let b1 = replaced(b, "&nbsp;"@, " "@);
    let b2 = replaced(b1, "&amp;"@, "&"@);
    let b3 = replaced(b2, "&lt;"@, "<"@);
    let b4 = replaced(b3, "&gt;"@, ">"@);
    let b5 = replaced(b4, "&quot;"@, "\""@);
    let b6 = replaced(b5, "&#39;"@, "'"@);
    lemma_other_entity("&#x27;"@, b, "&nbsp;"@, " "@, 1);
    lemma_other_entity("&#x27;"@, b1, "&amp;"@, "&"@, 1);
    lemma_other_entity("&#x27;"@, b2, "&lt;"@, "<"@, 1);
    lemma_other_entity("&#x27;"@, b3, "&gt;"@, ">"@, 1);
    lemma_other_entity("&#x27;"@, b4, "&quot;"@, "\""@, 1);
    lemma_other_entity("&#x27;"@, b5, "&#39;"@, "'"@, 2);
    lemma_this_entity(b6, "&#x27;"@, "'"@);
}

/// An entity is decoded to the character that it stands for, and what follows it
/// is decoded by itself.
pub proof fn law_entities_stand_for_characters(b: Seq<char>)
    ensures
        decoded("&nbsp;"@ + b) == " "@ + decoded(b),
        decoded("&lt;"@ + b) == "<"@ + decoded(b),
        decoded("&gt;"@ + b) == ">"@ + decoded(b),
        decoded("&quot;"@ + b) == "\""@ + decoded(b),
        decoded("&#39;"@ + b) == "'"@ + decoded(b),
        decoded("&#x27;"@ + b) == "'"@ + decoded(b),
{
    lemma_decoded_space(b);
    lemma_decoded_less_than(b);
    lemma_decoded_greater_than(b);
    lemma_decoded_double_quote(b);
    lemma_decoded_apostrophe(b);
    lemma_decoded_hex_apostrophe(b);
}

/// `&amp;lt;` is decoded twice over.
proof fn lemma_twice_less_than(b: Seq<char>)
    ensures
        decoded("&amp;lt;"@ + b) == "<"@ + decoded(b),
{
    reveal_strlit("&nbsp;");
    reveal_strlit("&amp;");
    reveal_strlit("&lt;");
    reveal_strlit("&gt;");
    reveal_strlit("&quot;");
    reveal_strlit("&#39;");
    reveal_strlit("&#x27;");
    reveal_strlit(" ");
    reveal_strlit("&");
    reveal_strlit("<");
    reveal_strlit(">");
    reveal_strlit("\"");
    reveal_strlit("'");
    reveal_strlit("&amp;lt;");
    reveal_strlit("lt;");
    let b1 = replaced(b, "&nbsp;"@, " "@);
    let b2 = replaced(b1, "&amp;"@, "&"@);
    let b3 = replaced(b2, "&lt;"@, "<"@);
    let b4 = replaced(b3, "&gt;"@, ">"@);
    let b5 = replaced(b4, "&quot;"@, "\""@);
    let b6 = replaced(b5, "&#39;"@, "'"@);
    lemma_other_entity("&amp;lt;"@, b, "&nbsp;"@, " "@, 1);
    assert("&amp;lt;"@ + b1 =~= "&amp;"@ + ("lt;"@ + b1));
    lemma_this_entity("lt;"@ + b1, "&amp;"@, "&"@);
    lemma_passed_over("lt;"@, b1, "&amp;"@, "&"@);
    assert("&"@ + ("lt;"@ + b2) =~= "&lt;"@ + b2);
    lemma_this_entity(b2, "&lt;"@, "<"@);
    lemma_passed_over("<"@, b3, "&gt;"@, ">"@);
    lemma_passed_over("<"@, b4, "&quot;"@, "\""@);
    lemma_passed_over("<"@, b5, "&#39;"@, "'"@);
    lemma_passed_over("<"@, b6, "&#x27;"@, "'"@);
}

/// `&amp;gt;` is decoded twice over.
proof fn lemma_twice_greater_than(b: Seq<char>)
    ensures
        decoded("&amp;gt;"@ + b) == ">"@ + decoded(b),
{
    reveal_strlit("&nbsp;");
    reveal_strlit("&amp;");
    reveal_strlit("&lt;");
    reveal_strlit("&gt;");
    reveal_strlit("&quot;");
    reveal_strlit("&#39;");
    reveal_strlit("&#x27;");
    reveal_strlit(" ");
    reveal_strlit("&");
    reveal_strlit("<");
    reveal_strlit(">");
    reveal_strlit("\"");
    reveal_strlit("'");
    reveal_strlit("&amp;gt;");
    reveal_strlit("gt;");
    let b1 = replaced(b, "&nbsp;"@, " "@);
    let b2 = replaced(b1, "&amp;"@, "&"@);
    let b3 = replaced(b2, "&lt;"@, "<"@);
    let b4 = replaced(b3, "&gt;"@, ">"@);
    let b5 = replaced(b4, "&quot;"@, "\""@);
    let b6 = replaced(b5, "&#39;"@, "'"@);
    lemma_other_entity("&amp;gt;"@, b, "&nbsp;"@, " "@, 1);
    assert("&amp;gt;"@ + b1 =~= "&amp;"@ + ("gt;"@ + b1));
    lemma_this_entity("gt;"@ + b1, "&amp;"@, "&"@);
    lemma_passed_over("gt;"@, b1, "&amp;"@, "&"@);
    assert("&"@ + ("gt;"@ + b2) =~= "&gt;"@ + b2);
    lemma_other_entity("&gt;"@, b2, "&lt;"@, "<"@, 1);
    lemma_this_entity(b3, "&gt;"@, ">"@);
    lemma_passed_over(">"@, b4, "&quot;"@, "\""@);
    lemma_passed_over(">"@, b5, "&#39;"@, "'"@);
    lemma_passed_over(">"@, b6, "&#x27;"@, "'"@);
}

/// `&amp;quot;` is decoded twice over.
proof fn lemma_twice_double_quote(b: Seq<char>)
    ensures
        decoded("&amp;quot;"@ + b) == "\""@ + decoded(b),
{
    reveal_strlit("&nbsp;");
    reveal_strlit("&amp;");
    reveal_strlit("&lt;");
    reveal_strlit("&gt;");
    reveal_strlit("&quot;");
    reveal_strlit("&#39;");
    reveal_strlit("&#x27;");
    reveal_strlit(" ");
    reveal_strlit("&");
    reveal_strlit("<");
    reveal_strlit(">");
    reveal_strlit("\"");
    reveal_strlit("'");
    reveal_strlit("&amp;quot;");
    reveal_strlit("quot;");
    let b1 = replaced(b, "&nbsp;"@, " "@);
    let b2 = replaced(b1, "&amp;"@, "&"@);
    let b3 = replaced(b2, "&lt;"@, "<"@);
    let b4 = replaced(b3, "&gt;"@, ">"@);
    let b5 = replaced(b4, "&quot;"@, "\""@);
    let b6 = replaced(b5, "&#39;"@, "'"@);
    lemma_other_entity("&amp;quot;"@, b, "&nbsp;"@, " "@, 1);
    assert("&amp;quot;"@ + b1 =~= "&amp;"@ + ("quot;"@ + b1));
    lemma_this_entity("quot;"@ + b1, "&amp;"@, "&"@);
    lemma_passed_over("quot;"@, b1, "&amp;"@, "&"@);
    assert("&"@ + ("quot;"@ + b2) =~= "&quot;"@ + b2);
    lemma_other_entity("&quot;"@, b2, "&lt;"@, "<"@, 1);
    lemma_other_entity("&quot;"@, b3, "&gt;"@, ">"@, 1);
    lemma_this_entity(b4, "&quot;"@, "\""@);
    lemma_passed_over("\""@, b5, "&#39;"@, "'"@);
    lemma_passed_over("\""@, b6, "&#x27;"@, "'"@);
}

/// `&amp;#39;` is decoded twice over.
proof fn lemma_twice_apostrophe(b: Seq<char>)
    ensures
        decoded("&amp;#39;"@ + b) == "'"@ + decoded(b),
{
    reveal_strlit("&nbsp;");
    reveal_strlit("&amp;");
    reveal_strlit("&lt;");
    reveal_strlit("&gt;");
    reveal_strlit("&quot;");
    reveal_strlit("&#39;");
    reveal_strlit("&#x27;");
    reveal_strlit(" ");
    reveal_strlit("&");
    reveal_strlit("<");
    reveal_strlit(">");
    reveal_strlit("\"");
    reveal_strlit("'");
    reveal_strlit("&amp;#39;");
    reveal_strlit("#39;");
    let b1 = replaced(b, "&nbsp;"@, " "@);
    let b2 = replaced(b1, "&amp;"@, "&"@);
    let b3 = replaced(b2, "&lt;"@, "<"@);
    let b4 = replaced(b3, "&gt;"@, ">"@);
    let b5 = replaced(b4, "&quot;"@, "\""@);
    let b6 = replaced(b5, "&#39;"@, "'"@);
    lemma_other_entity("&amp;#39;"@, b, "&nbsp;"@, " "@, 1);
    assert("&amp;#39;"@ + b1 =~= "&amp;"@ + ("#39;"@ + b1));
    lemma_this_entity("#39;"@ + b1, "&amp;"@, "&"@);
    lemma_passed_over("#39;"@, b1, "&amp;"@, "&"@);
    assert("&"@ + ("#39;"@ + b2) =~= "&#39;"@ + b2);
    lemma_other_entity("&#39;"@, b2, "&lt;"@, "<"@, 1);
    lemma_other_entity("&#39;"@, b3, "&gt;"@, ">"@, 1);
    lemma_other_entity("&#39;"@, b4, "&quot;"@, "\""@, 1);
    lemma_this_entity(b5, "&#39;"@, "'"@);
    lemma_passed_over("'"@, b6, "&#x27;"@, "'"@);
}

/// `&amp;#x27;` is decoded twice over.
proof fn lemma_twice_hex_apostrophe(b: Seq<char>)
    ensures
        decoded("&amp;#x27;"@ + b) == "'"@ + decoded(b),
{
    reveal_strlit("&nbsp;");
    reveal_strlit("&amp;");
    reveal_strlit("&lt;");
    reveal_strlit("&gt;");
    reveal_strlit("&quot;");
    reveal_strlit("&#39;");
    reveal_strlit("&#x27;");
    reveal_strlit(" ");
    reveal_strlit("&");
    reveal_strlit("<");
    reveal_strlit(">");
    reveal_strlit("\"");
    reveal_strlit("'");
    reveal_strlit("&amp;#x27;");
    reveal_strlit("#x27;");
    let b1 = replaced(b, "&nbsp;"@, " "@);
    let b2 = replaced(b1, "&amp;"@, "&"@);
    let b3 = replaced(b2, "&lt;"@, "<"@);
    let b4 = replaced(b3, "&gt;"@, ">"@);
    let b5 = replaced(b4, "&quot;"@, "\""@);
    let b6 = replaced(b5, "&#39;"@, "'"@);
    lemma_other_entity("&amp;#x27;"@, b, "&nbsp;"@, " "@, 1);
    assert("&amp;#x27;"@ + b1 =~= "&amp;"@ + ("#x27;"@ + b1));
    lemma_this_entity("#x27;"@ + b1, "&amp;"@, "&"@);
    lemma_passed_over("#x27;"@, b1, "&amp;"@, "&"@);
    assert("&"@ + ("#x27;"@ + b2) =~= "&#x27;"@ + b2);
    lemma_other_entity("&#x27;"@, b2, "&lt;"@, "<"@, 1);
    lemma_other_entity("&#x27;"@, b3, "&gt;"@, ">"@, 1);
    lemma_other_entity("&#x27;"@, b4, "&quot;"@, "\""@, 1);
    lemma_other_entity("&#x27;"@, b5, "&#39;"@, "'"@, 2);
    lemma_this_entity(b6, "&#x27;"@, "'"@);
}

/// An ampersand that was itself written as an entity starts one of the entities
/// that are decoded behind it.
pub proof fn law_decoding_goes_in_turn(b: Seq<char>)
    ensures
        decoded("&amp;lt;"@ + b) == "<"@ + decoded(b),
        decoded("&amp;gt;"@ + b) == ">"@ + decoded(b),
        decoded("&amp;quot;"@ + b) == "\""@ + decoded(b),
        decoded("&amp;#39;"@ + b) == "'"@ + decoded(b),
        decoded("&amp;#x27;"@ + b) == "'"@ + decoded(b),
{
    lemma_twice_less_than(b);
    lemma_twice_greater_than(b);
    lemma_twice_double_quote(b);
    lemma_twice_apostrophe(b);
    lemma_twice_hex_apostrophe(b);
}

/// What a text starts with after replacing, it started with before, unless the
/// replacement is in it.
proof fn lemma_start_was_there(x: Seq<char>, s: Seq<char>, pat: Seq<char>, with: Seq<char>)
    requires
        with.len() == 1,
        !x.contains(with[0]),
        x.is_prefix_of(replaced(s, pat, with)),
    ensures
        x.is_prefix_of(s),
    decreases x.len(),
{
    let r = replaced(s, pat, with);
    if x.len() == 0 {
        assert(x =~= s.subrange(0, 0));
    } else if s.len() > 0 && pat.len() > 0 {
        assert(x.contains(x[0]));
        assert(r[0] == x[0]);
        if pat.is_prefix_of(s) {
            assert(r[0] == with[0]);
        } else {
            let y = x.skip(1);
            let t = s.skip(1);
            let rest = replaced(t, pat, with);
            assert(r =~= seq![s[0]] + rest);
            assert(!y.contains(with[0])) by {
                if y.contains(with[0]) {
                    let i = choose|i: int| 0 <= i < y.len() && y[i] == with[0];
                    assert(x[i + 1] == with[0]);
                }
            }
            assert(y =~= rest.subrange(0, y.len() as int)) by {
                assert forall|i: int| 0 <= i < y.len() implies y[i] == rest[i] by {
                    assert(x[i + 1] == r[i + 1]);
                }
            }
            lemma_start_was_there(y, t, pat, with);
            assert(x =~= s.subrange(0, x.len() as int)) by {
                assert forall|i: int| 0 <= i < x.len() implies x[i] == s[i] by {
                    if i > 0 {
                        assert(y[i - 1] == t[i - 1]);
                    }
                }
            }
        }
    }
}

/// An ampersand that does not start what is looked for is passed over.
proof fn lemma_lone_ampersand(b: Seq<char>, pat: Seq<char>, with: Seq<char>)
    requires
        pat.len() > 1,
        !pat.skip(1).is_prefix_of(b),
    ensures
        replaced("&"@ + b, pat, with) == "&"@ + replaced(b, pat, with),
{
    reveal_strlit("&");
    let s = "&"@ + b;
    assert forall|k: int| 0 <= k < "&"@.len() implies !pat.is_prefix_of(#[trigger] s.skip(k)) by {
        assert(s.skip(0) =~= s);
        if pat.is_prefix_of(s.skip(k)) {
            assert(pat.skip(1) =~= b.subrange(0, pat.len() - 1)) by {
                assert forall|i: int| 0 <= i < pat.len() - 1 implies pat.skip(1)[i] == b[i] by {
                    assert(pat[i + 1] == s[i + 1]);
                }
            }
        }
    }
    lemma_replaced_behind("&"@, b, pat, with);
}

/// Every ampersand that does not start one of the entities stays as it is, and
/// `&amp;` stands for one, where it does not itself make what follows an entity.
pub proof fn law_only_entities_are_decoded(b: Seq<char>)
    requires
        !"lt;"@.is_prefix_of(b),
        !"gt;"@.is_prefix_of(b),
        !"quot;"@.is_prefix_of(b),
        !"#39;"@.is_prefix_of(b),
        !"#x27;"@.is_prefix_of(b),
    ensures
        decoded("&amp;"@ + b) == "&"@ + decoded(b),
        !"nbsp;"@.is_prefix_of(b) && !"amp;"@.is_prefix_of(b) ==> decoded("&"@ + b) == "&"@
            + decoded(b),
{
    reveal_strlit("&nbsp;");
    reveal_strlit("nbsp;");
    reveal_strlit("&amp;");
    reveal_strlit("amp;");
    reveal_strlit("&lt;");
    reveal_strlit("lt;");
    reveal_strlit("&gt;");
    reveal_strlit("gt;");
    reveal_strlit("&quot;");
    reveal_strlit("quot;");
    reveal_strlit("&#39;");
    reveal_strlit("#39;");
    reveal_strlit("&#x27;");
    reveal_strlit("#x27;");
    reveal_strlit(" ");
    reveal_strlit("&");
    reveal_strlit("<");
    reveal_strlit(">");
    reveal_strlit("\"");
    reveal_strlit("'");
    assert("&nbsp;"@.skip(1) =~= "nbsp;"@);
    assert("&amp;"@.skip(1) =~= "amp;"@);
    assert("&lt;"@.skip(1) =~= "lt;"@);
    assert("&gt;"@.skip(1) =~= "gt;"@);
    assert("&quot;"@.skip(1) =~= "quot;"@);
    assert("&#39;"@.skip(1) =~= "#39;"@);
    assert("&#x27;"@.skip(1) =~= "#x27;"@);
    let b1 = replaced(b, "&nbsp;"@, " "@);
    let b2 = replaced(b1, "&amp;"@, "&"@);
    let b3 = replaced(b2, "&lt;"@, "<"@);
    let b4 = replaced(b3, "&gt;"@, ">"@);
    let b5 = replaced(b4, "&quot;"@, "\""@);
    let b6 = replaced(b5, "&#39;"@, "'"@);
    if "lt;"@.is_prefix_of(b1) {
        lemma_start_was_there("lt;"@, b, "&nbsp;"@, " "@);
    }
    if "gt;"@.is_prefix_of(b1) {
        lemma_start_was_there("gt;"@, b, "&nbsp;"@, " "@);
    }
    if "quot;"@.is_prefix_of(b1) {
        lemma_start_was_there("quot;"@, b, "&nbsp;"@, " "@);
    }
    if "#39;"@.is_prefix_of(b1) {
        lemma_start_was_there("#39;"@, b, "&nbsp;"@, " "@);
    }
    if "#x27;"@.is_prefix_of(b1) {
        lemma_start_was_there("#x27;"@, b, "&nbsp;"@, " "@);
    }
    if "lt;"@.is_prefix_of(b2) {
        lemma_start_was_there("lt;"@, b1, "&amp;"@, "&"@);
    }
    if "gt;"@.is_prefix_of(b2) {
        lemma_start_was_there("gt;"@, b1, "&amp;"@, "&"@);
    }
    if "quot;"@.is_prefix_of(b2) {
        lemma_start_was_there("quot;"@, b1, "&amp;"@, "&"@);
    }
    if "#39;"@.is_prefix_of(b2) {
        lemma_start_was_there("#39;"@, b1, "&amp;"@, "&"@);
    }
    if "#x27;"@.is_prefix_of(b2) {
        lemma_start_was_there("#x27;"@, b1, "&amp;"@, "&"@);
    }
    if "gt;"@.is_prefix_of(b3) {
        lemma_start_was_there("gt;"@, b2, "&lt;"@, "<"@);
    }
    if "quot;"@.is_prefix_of(b3) {
        lemma_start_was_there("quot;"@, b2, "&lt;"@, "<"@);
    }
    if "#39;"@.is_prefix_of(b3) {
        lemma_start_was_there("#39;"@, b2, "&lt;"@, "<"@);
    }
    if "#x27;"@.is_prefix_of(b3) {
        lemma_start_was_there("#x27;"@, b2, "&lt;"@, "<"@);
    }
    if "quot;"@.is_prefix_of(b4) {
        lemma_start_was_there("quot;"@, b3, "&gt;"@, ">"@);
    }
    if "#39;"@.is_prefix_of(b4) {
        lemma_start_was_there("#39;"@, b3, "&gt;"@, ">"@);
    }
    if "#x27;"@.is_prefix_of(b4) {
        lemma_start_was_there("#x27;"@, b3, "&gt;"@, ">"@);
    }
    if "#39;"@.is_prefix_of(b5) {
        lemma_start_was_there("#39;"@, b4, "&quot;"@, "\""@);
    }
    if "#x27;"@.is_prefix_of(b5) {
        lemma_start_was_there("#x27;"@, b4, "&quot;"@, "\""@);
    }
    if "#x27;"@.is_prefix_of(b6) {
        lemma_start_was_there("#x27;"@, b5, "&#39;"@, "'"@);
    }
    lemma_other_entity("&amp;"@, b, "&nbsp;"@, " "@, 1);
    lemma_this_entity(b1, "&amp;"@, "&"@);
    lemma_lone_ampersand(b2, "&lt;"@, "<"@);
    lemma_lone_ampersand(b3, "&gt;"@, ">"@);
    lemma_lone_ampersand(b4, "&quot;"@, "\""@);
    lemma_lone_ampersand(b5, "&#39;"@, "'"@);
    lemma_lone_ampersand(b6, "&#x27;"@, "'"@);
    if !"nbsp;"@.is_prefix_of(b) && !"amp;"@.is_prefix_of(b) {
        if "amp;"@.is_prefix_of(b1) {
            lemma_start_was_there("amp;"@, b, "&nbsp;"@, " "@);
        }
        lemma_lone_ampersand(b, "&nbsp;"@, " "@);
        lemma_lone_ampersand(b1, "&amp;"@, "&"@);
    }
}

}
