//! Slash-separated paths and the file names taken from them.
use vstd::prelude::*;

use crate::text;
use crate::text::{pieces, trimmed, white_space};

verus! {

/// The last of `parts` that names something: neither empty nor `.`.
pub open spec fn last_named(parts: Seq<Seq<char>>) -> Option<Seq<char>>
    decreases parts.len(),
{
    if parts.len() == 0 {
        None
    } else if parts.last().len() == 0 || parts.last() == "."@ {
        last_named(parts.drop_last())
    } else {
        Some(parts.last())
    }
}

/// The file name that ends a path: its last component, unless there is none or
/// that is `..`.
pub open spec fn name_of(path: Seq<char>) -> Option<Seq<char>> {
    match last_named(pieces(path, '/')) {
        Some(name) if name != ".."@ => Some(name),
        _ => None,
    }
}

/// `part` below `base`; an absolute `part` stands for itself.
pub open spec fn below(base: Seq<char>, part: Seq<char>) -> Seq<char> {
    if part.len() > 0 && part[0] == '/' {
        part
    } else if base.len() == 0 || base.last() == '/' {
        base + part
    } else {
        base.push('/') + part
    }
}

/// Whether `chars[from..to]` names something, as a path component.
fn names(chars: &Vec<char>, from: usize, to: usize) -> (r: bool)
    requires
        from <= to <= chars@.len(),
    ensures
        r == !(chars@.subrange(from as int, to as int).len() == 0 || chars@.subrange(
            from as int,
            to as int,
        ) == "."@),
{
    proof {
        reveal_strlit(".");
    }
    let ghost part = chars@.subrange(from as int, to as int);
    if from == to {
        false
    } else if to - from == 1 && chars[from] == '.' {
        assert(part =~= "."@);
        false
    } else {
        proof {
            if part == "."@ {
                assert(part.len() == 1 && part[0] == '.');
            }
        }
        true
    }
}

/// The file name that ends `path`.
pub fn file_name(path: &str) -> (r: Option<String>)
    ensures
        match r {
            Some(name) => name_of(path@) == Some(name@),
            None => name_of(path@) is None,
        },
{
    let t = text::chars_of(path);
    let mut found: Option<(usize, usize)> = None;
    let mut start: usize = 0;
    let mut i: usize = 0;
    assert(t@.take(0) =~= seq![]);
    assert(pieces(t@.take(0), '/').drop_last() =~= seq![]);
    assert(pieces(t@.take(0), '/').last() =~= t@.subrange(0, 0));
    while i < t.len()
        invariant
            start <= i <= t@.len(),
            t@ == path@,
            pieces(t@.take(i as int), '/').len() > 0,
            pieces(t@.take(i as int), '/').last() == t@.subrange(start as int, i as int),
            match found {
                Some((a, b)) => a <= b <= t@.len() && last_named(
                    pieces(t@.take(i as int), '/').drop_last(),
                ) == Some(t@.subrange(a as int, b as int)),
                None => last_named(pieces(t@.take(i as int), '/').drop_last()) is None,
            },
        decreases t@.len() - i,
    {
        let ghost before = pieces(t@.take(i as int), '/');
        let ghost after = pieces(t@.take(i + 1), '/');
        assert(t@.take(i + 1).drop_last() =~= t@.take(i as int));
        if t[i] == '/' {
            if names(&t, start, i) {
                found = Some((start, i));
            }
            start = i + 1;
            assert(after.drop_last() =~= before);
            assert(after.last() =~= t@.subrange(start as int, i + 1));
        } else {
            assert(after.drop_last() =~= before.drop_last());
            assert(after.last() =~= t@.subrange(start as int, i + 1));
        }
        i += 1;
    }
    assert(t@.take(t@.len() as int) =~= t@);
    if names(&t, start, t.len()) {
        found = Some((start, t.len()));
    }
    match found {
        None => None,
        Some((a, b)) => {
            let name = text::string_of(t.as_slice(), a, b);
            if text::same(name.as_str(), "..") {
                None
            } else {
                Some(name)
            }
        },
    }
}

/// `part` below `base`.
pub fn join(base: &str, part: &str) -> (r: String)
    ensures
        r@ == below(base@, part@),
{
    let b = text::chars_of(base);
    let p = text::chars_of(part);
    let mut r = String::new();
    if p.len() > 0 && p[0] == '/' {
        r.append(part);
        assert(r@ =~= part@);
        return r;
    }
    r.append(base);
    assert(r@ =~= base@);
    if b.len() > 0 && b[b.len() - 1] != '/' {
        r.push('/');
    }
    r.append(part);
    r
}

/// Whether `c`, a character beyond ASCII, is a letter or a number by its
/// Unicode properties.
pub uninterp spec fn alphanumeric_beyond_ascii(c: char) -> bool;

/// Whether `c` is a letter or a number.
pub open spec fn alphanumeric(c: char) -> bool {
    if (c as u32) < 128 {
        'a' <= c <= 'z' || 'A' <= c <= 'Z' || '0' <= c <= '9'
    } else {
        alphanumeric_beyond_ascii(c)
    }
}

/// `char::is_alphanumeric`: a fixed property of the character. Of the ASCII
/// characters exactly the letters and the digits have it; which of the others
/// do is left to Unicode's tables.
pub assume_specification[ char::is_alphanumeric ](c: char) -> (r: bool)
    ensures
        (c as u32) < 128 ==> r == alphanumeric(c),
        (c as u32) >= 128 ==> r == alphanumeric_beyond_ascii(c),
;

/// Whether `c` may stand in a saved file's name.
pub open spec fn safe(c: char) -> bool {
    alphanumeric(c) || c == '.' || c == '-' || c == '_' || c == ' '
}

/// `s` with every character that may not stand in a file name replaced by an
/// underscore.
pub open spec fn made_safe(s: Seq<char>) -> Seq<char> {
    s.map_values(
        |c: char|
            if safe(c) {
                c
            } else {
                '_'
            },
    )
}

/// The name under which a file called `name` is saved: its last component, or
/// `attachment.bin`, made safe and trimmed, or `attachment.bin` if what is left
/// names no file.
pub open spec fn sanitized(name: Seq<char>) -> Seq<char> {
    let base = match name_of(name) {
        Some(base) => base,
        None => "attachment.bin"@,
    };
    let clean = trimmed(made_safe(base));
    if clean.len() == 0 || clean == "."@ || clean == ".."@ {
        "attachment.bin"@
    } else {
        clean
    }
}

/// Turns a file name found in a message into one that is safe to save under.
pub fn sanitize_filename(name: &str) -> (r: String)
    ensures
        r@ == sanitized(name@),
{
    let base = match file_name(name) {
        Some(base) => base,
        None => "attachment.bin".to_string(),
    };
    let chars = text::chars_of(base.as_str());
    let mut clean = String::new();
    let mut i: usize = 0;
    while i < chars.len()
        invariant
            i <= chars@.len(),
            chars@ == base@,
            clean@ == made_safe(base@.take(i as int)),
        decreases chars@.len() - i,
    {
        let c = chars[i];
        if c.is_alphanumeric() || c == '.' || c == '-' || c == '_' || c == ' ' {
            clean.push(c);
        } else {
            clean.push('_');
        }
        assert(clean@ =~= made_safe(base@.take(i + 1)));
        i += 1;
    }
    assert(base@.take(base@.len() as int) =~= base@);
    let clean = text::trim(clean.as_str());
    if clean.as_str().is_empty() || text::same(clean.as_str(), ".") || text::same(
        clean.as_str(),
        "..",
    ) {
        "attachment.bin".to_string()
    } else {
        clean
    }
}

/// `attachment.bin` is itself a safe name.
proof fn lemma_fallback_is_safe()
    ensures
        "attachment.bin"@.len() > 0,
        "attachment.bin"@ != "."@,
        "attachment.bin"@ != ".."@,
        !white_space("attachment.bin"@.first()),
        !white_space("attachment.bin"@.last()),
        forall|i: int| 0 <= i < "attachment.bin"@.len() ==> safe(#[trigger] "attachment.bin"@[i]),
{
    reveal_strlit("attachment.bin");
    reveal_strlit(".");
    reveal_strlit("..");
    let s = "attachment.bin"@;
    assert(s.len() == 14);
    assert forall|i: int| 0 <= i < s.len() implies safe(#[trigger] s[i]) by {
        assert(i == 0 || i == 1 || i == 2 || i == 3 || i == 4 || i == 5 || i == 6 || i == 7 || i
            == 8 || i == 9 || i == 10 || i == 11 || i == 12 || i == 13);
    }
}

/// Every character of a saved file's name is safe in one.
proof fn lemma_sanitized_chars(name: Seq<char>)
    ensures
        sanitized(name).len() > 0,
        !white_space(sanitized(name).first()),
        !white_space(sanitized(name).last()),
        forall|i: int| 0 <= i < sanitized(name).len() ==> safe(#[trigger] sanitized(name)[i]),
{
    lemma_fallback_is_safe();
    let base = match name_of(name) {
        Some(base) => base,
        None => "attachment.bin"@,
    };
    let clean = made_safe(base);
    text::lemma_trimmed(clean);
    let (a, b) = choose|a: int, b: int|
        0 <= a <= b <= clean.len() && trimmed(clean) == #[trigger] clean.subrange(a, b);
    let shown = trimmed(clean);
    if shown.len() == 0 || shown == "."@ || shown == ".."@ {
        assert(sanitized(name) == "attachment.bin"@);
    } else {
        assert(sanitized(name) == shown);
        assert forall|i: int| 0 <= i < shown.len() implies safe(#[trigger] shown[i]) by {
            assert(shown[i] == clean[a + i]);
        }
    }
}

/// A saved file's name is never empty, has no white space at its ends and holds
/// only characters that are safe in one. In particular it holds no slash, no
/// backslash and no control character, and it is neither `.` nor `..`, so it
/// cannot leave its directory.
pub proof fn law_sanitized_names_are_safe(name: Seq<char>)
    ensures
        sanitized(name).len() > 0,
        !white_space(sanitized(name).first()),
        !white_space(sanitized(name).last()),
        forall|i: int| 0 <= i < sanitized(name).len() ==> safe(#[trigger] sanitized(name)[i]),
        !sanitized(name).contains('/'),
        !sanitized(name).contains('\\'),
        forall|c: char| (c as u32) < 32 ==> !(#[trigger] sanitized(name).contains(c)),
        sanitized(name) != "."@,
        sanitized(name) != ".."@,
{
    lemma_fallback_is_safe();
    lemma_sanitized_chars(name);
    let s = sanitized(name);
    assert forall|c: char| !safe(c) implies !(#[trigger] s.contains(c)) by {
        if s.contains(c) {
            let i = choose|i: int| 0 <= i < s.len() && s[i] == c;
            assert(safe(s[i]));
        }
    }
    assert(!safe('/') && !safe('\\'));
    assert forall|c: char| (c as u32) < 32 implies !(#[trigger] s.contains(c)) by {
        assert(!safe(c));
    }
}

/// A name that has been made safe stays as it is.
pub proof fn law_sanitizing_is_stable(name: Seq<char>)
    ensures
        sanitized(sanitized(name)) == sanitized(name),
{
    let s = sanitized(name);
    law_sanitized_names_are_safe(name);
    text::lemma_one_piece(s, '/');
    assert(last_named(seq![s]) == Some(s));
    assert(made_safe(s) =~= s);
    text::lemma_trimmed_fixed(s);
}

/// The directories in a name play no part: only the file that it names does.
pub proof fn law_directories_play_no_part(dir: Seq<char>, file: Seq<char>)
    requires
        file.len() > 0,
        !file.contains('/'),
        file != "."@,
        file != ".."@,
    ensures
        name_of(dir + "/"@ + file) == Some(file),
        sanitized(dir + "/"@ + file) == sanitized(file),
{
    reveal_strlit("/");
    let base = dir.push('/');
    let whole = dir + "/"@ + file;
    assert(whole =~= base + file);
    text::lemma_last_piece(base, file, '/');
    text::lemma_pieces(whole, '/');
    assert(text::pieces(base, '/').last() =~= seq![]);
    assert(seq![] + file =~= file);
    assert(last_named(pieces(whole, '/')) == Some(file));
    text::lemma_one_piece(file, '/');
    assert(last_named(seq![file]) == Some(file));
}

/// A path without slashes is its own file name, unless it is empty, `.` or `..`;
/// slashes at the end of a path, and `.` behind one, play no part; and a path that
/// ends in `..` names no file.
pub proof fn law_file_name_ends_the_path(path: Seq<char>, file: Seq<char>)
    requires
        !file.contains('/'),
    ensures
        name_of(file) == if file.len() == 0 || file == "."@ || file == ".."@ {
            None
        } else {
            Some(file)
        },
        name_of(path + "/"@) == name_of(path),
        name_of(path + "/."@) == name_of(path),
        name_of(path + "/.."@) is None,
{
    reveal_strlit("/");
    reveal_strlit("/.");
    reveal_strlit("/..");
    reveal_strlit(".");
    reveal_strlit("..");
    text::lemma_one_piece(file, '/');
    assert(seq![file].drop_last() =~= seq![]);
    assert(last_named(seq![]) is None);
    let base = path.push('/');
    assert(path + "/"@ =~= base);
    assert(base.drop_last() =~= path);
    let parts = pieces(path, '/');
    assert(pieces(base, '/') =~= parts.push(seq![]));
    assert(parts.push(seq![]).drop_last() =~= parts);
    assert(path + "/."@ =~= base + "."@);
    text::lemma_last_piece(base, "."@, '/');
    text::lemma_pieces(base + "."@, '/');
    assert(seq![] + "."@ =~= "."@);
    assert(pieces(base + "."@, '/').last() == "."@);
    assert(pieces(base + "."@, '/').drop_last() == parts);
    assert(path + "/.."@ =~= base + ".."@);
    text::lemma_last_piece(base, ".."@, '/');
    text::lemma_pieces(base + ".."@, '/');
    assert(seq![] + ".."@ =~= ".."@);
    assert(last_named(pieces(base + ".."@, '/')) == Some(".."@));
}

/// A path below another is put behind it with one slash between them, and an
/// absolute path stands for itself.
pub proof fn law_joining_adds_one_slash(base: Seq<char>, part: Seq<char>)
    ensures
        part.len() > 0 && part[0] == '/' ==> below(base, part) == part,
        !(part.len() > 0 && part[0] == '/') && (base.len() == 0 || base.last() == '/') ==> below(
            base,
            part,
        ) == base + part,
        !(part.len() > 0 && part[0] == '/') && base.len() > 0 && base.last() != '/' ==> below(
            base,
            part,
        ) == base + "/"@ + part,
{
    reveal_strlit("/");
    assert(base + "/"@ + part =~= base.push('/') + part);
}

/// Made safe, a file name keeps every character that is a letter, a number, a dot,
/// a dash, an underscore or a space, and has an underscore for every other; then
/// the white space at its ends is dropped. Only a name of which nothing is left,
/// or `.` or `..`, becomes `attachment.bin`.
pub proof fn law_sanitizing_keeps_what_is_safe(name: Seq<char>, clean: Seq<char>)
    requires
        name.len() > 0,
        !name.contains('/'),
        name != "."@,
        name != ".."@,
        clean.len() == name.len(),
        forall|k: int|
            0 <= k < name.len() ==> #[trigger] clean[k] == if {
                ||| 'a' <= name[k] <= 'z'
                ||| 'A' <= name[k] <= 'Z'
                ||| '0' <= name[k] <= '9'
                ||| name[k] == '.'
                ||| name[k] == '-'
                ||| name[k] == '_'
                ||| name[k] == ' '
                ||| name[k] as u32 >= 128 && alphanumeric_beyond_ascii(name[k])
            } {
                name[k]
            } else {
                '_'
            },
    ensures
        sanitized(name) == if trimmed(clean).len() == 0 || trimmed(clean) == "."@ || trimmed(clean)
            == ".."@ {
            "attachment.bin"@
        } else {
            trimmed(clean)
        },
{
    text::lemma_one_piece(name, '/');
    assert(last_named(seq![name]) == Some(name));
    assert(made_safe(name) =~= clean);
}

/// A name without a file in it becomes `attachment.bin`.
pub proof fn law_no_file_becomes_the_fallback(name: Seq<char>)
    requires
        name_of(name) is None,
    ensures
        sanitized(name) == "attachment.bin"@,
{
    lemma_fallback_is_safe();
    assert(made_safe("attachment.bin"@) =~= "attachment.bin"@);
    text::lemma_trimmed_fixed("attachment.bin"@);
}

/// Only the file that a name ends with plays a part in making it safe.
pub proof fn law_only_the_file_plays_a_part(name: Seq<char>, other: Seq<char>)
    requires
        name_of(name) == name_of(other),
    ensures
        sanitized(name) == sanitized(other),
{
}

}
