//! Whether the launcher keeps its files beside its own executable.

use vstd::prelude::*;

use crate::text;

verus! {

/// The running executable's path, in its parts.
pub struct Executable {
    /// The last part of the path.
    pub file_name: Option<Vec<u8>>,
    /// The directory it lies in.
    pub parent: Option<Vec<u8>>,
}

/// What `str::to_lowercase` makes of a text.
pub uninterp spec fn lowercase_text(text: Seq<char>) -> Seq<char>;

/// `part` occurs in `text`.
pub open spec fn has_part(text: Seq<char>, part: Seq<char>) -> bool {
    exists|i: int|
        0 <= i <= text.len() - part.len() && #[trigger] text.subrange(i, i + part.len()) == part
}

/// The text of a file's name is that of a portable launcher: in lower case, it
/// holds the word.
pub open spec fn is_portable_text(text: Seq<char>) -> bool {
    has_part(lowercase_text(text), "portable"@)
}

/// A file's name is that of a portable launcher. The case of its ASCII letters
/// does not matter, so that it is looked at with small ones.
pub open spec fn is_portable_name(name: Seq<u8>) -> bool {
    is_portable_text(text::lossy_text(text::ascii_small_bytes(name)))
}

/// The directory of a portable launcher: the one that holds the executable,
/// where the executable's name is that of a portable launcher.
pub open spec fn portable_dir(executable: Option<Executable>) -> Option<Vec<u8>> {
    match executable {
        Some(Executable { file_name: Some(name), parent }) => if is_portable_name(name@) {
            parent
        } else {
            None
        },
        _ => None,
    }
}

/// The bytes are ASCII characters.
pub open spec fn is_ascii_bytes(bytes: Seq<u8>) -> bool {
    forall|i: int| 0 <= i < bytes.len() ==> #[trigger] bytes[i] < 128
}

/// Bytes that are ASCII characters, as a text.
pub open spec fn ascii_text(bytes: Seq<u8>) -> Seq<char> {
    bytes.map_values(|byte: u8| byte as char)
}

/// Calls `str::to_lowercase`, which maps each character as Unicode says: of the
/// ASCII characters only the capital letters change, to the small ones. Of
/// other texts the result is only given a name. What becomes of a character can
/// depend on whether letters stand around it, but not on the case of these, so
/// that it makes no difference when the ASCII letters are small already.
#[verifier::external_body]
fn to_lowercase(text: &String) -> (lowered: String)
    ensures
        lowered@ == lowercase_text(text@),
        vstd::utf8::is_ascii_chars(text@) ==> lowered@ == text::ascii_small(text@),
        lowered@ == lowercase_text(text::ascii_small(text@)),
{
    text.to_lowercase()
}

/// Whether a text in lower case names a portable launcher.
pub fn mentions_portable(lowered: &str) -> (found: bool)
    ensures
        found == has_part(lowered@, "portable"@),
        found <==> exists|i: int|
            0 <= i && i + 8 <= lowered@.len() && #[trigger] lowered@.subrange(i, i + 8)
                == "portable"@,
{
    let part = "portable";
    proof {
        reveal_strlit("portable");
    }
    let length = part.unicode_len();
    let count = lowered.unicode_len();
    if count < length {
        return false;
    }
    let mut at: usize = 0;
    while at <= count - length
        invariant
            part@ == "portable"@,
            0 < length == part@.len(),
            part@.len() == 8,
            count == lowered@.len(),
            length <= count,
            at <= count - length + 1,
            forall|i: int|
                0 <= i < at ==> #[trigger] lowered@.subrange(i, i + part@.len()) != part@,
        decreases count - length + 1 - at,
    {
        if text::stands_at(lowered, part, at, length) {
            assert(lowered@.subrange(at as int, at + 8) == part@);
            return true;
        }
        at += 1;
    }
    false
}

/// From the byte number `at` on, the word "portable" stands in the name, each of
/// its letters small or capital.
pub open spec fn spells_portable(name: Seq<u8>, at: int) -> bool {
    &&& 0 <= at <= name.len() - 8
    &&& forall|k: int|
        0 <= k < 8 ==> {
            ||| name[at + k] as int == #[trigger] "portable"@[k] as int
            ||| name[at + k] + 32 == "portable"@[k] as int
        }
}

/// The directory of a portable launcher: the one that holds the executable,
/// where the executable's name, in any case, holds the word "portable".
pub fn get_portable_dir(executable: Option<Executable>) -> (dir: Option<Vec<u8>>)
    ensures
        dir == portable_dir(executable),
        executable matches Some(Executable { file_name: Some(name), parent }) ==> dir
            == if is_portable_text(text::lossy_text(name@)) {
            parent
        } else {
            None
        },
        executable matches Some(Executable { file_name: Some(name), parent })
            ==> is_ascii_bytes(name@) ==> dir == if has_part(
            text::ascii_small(ascii_text(name@)),
            "portable"@,
        ) {
            parent
        } else {
            None
        },
        executable is None ==> dir is None,
        executable matches Some(Executable { file_name: None, .. }) ==> dir is None,
        executable matches Some(Executable { file_name: Some(name), parent })
            ==> is_ascii_bytes(name@) ==> dir == if exists|at: int| #[trigger]
            spells_portable(name@, at) {
            parent
        } else {
            None
        },
{
    match executable {
        Some(Executable { file_name: Some(name), parent }) => {
            let shown = text::to_lossy_text(&name);
            let lowered = to_lowercase(&shown);
            proof {
                if is_ascii_bytes(name@) {
                    lemma_ascii_text(name@);
                    lemma_spelling(name@);
                }
            }
            if mentions_portable(lowered.as_str()) {
                parent
            } else {
                None
            }
        },
        _ => None,
    }
}

/// The case of ASCII letters never matters: two executables in one directory,
/// whose names differ in nothing else, are both portable or both not.
pub proof fn law_case_of_letters_does_not_matter(
    name: Vec<u8>,
    other: Vec<u8>,
    parent: Option<Vec<u8>>,
)
    requires
        text::ascii_small_bytes(name@) == text::ascii_small_bytes(other@),
    ensures
        portable_dir(Some(Executable { file_name: Some(name), parent })) == portable_dir(
            Some(Executable { file_name: Some(other), parent }),
        ),
{
}

/// Bytes that are ASCII characters are valid UTF-8 for these characters.
proof fn lemma_ascii_text(bytes: Seq<u8>)
    requires
        is_ascii_bytes(bytes),
    ensures
        vstd::utf8::is_ascii_chars(ascii_text(bytes)),
        vstd::utf8::valid_utf8(bytes),
        vstd::utf8::decode_utf8(bytes) == ascii_text(bytes),
{
    let text = ascii_text(bytes);
    assert(vstd::utf8::is_ascii_chars(text));
    vstd::utf8::is_ascii_chars_encode_utf8(text);
    assert forall|i: int| 0 <= i < bytes.len() implies #[trigger] bytes[i]
        == vstd::utf8::encode_utf8(text)[i] by {
        assert(text[i] as u8 == vstd::utf8::encode_utf8(text)[i]);
    }
    assert(vstd::utf8::encode_utf8(text) =~= bytes);
    vstd::utf8::encode_utf8_valid_utf8(text);
    vstd::utf8::encode_utf8_decode_utf8(text);
}

/// A name of ASCII characters holds the word in small letters where it holds it
/// in any.
proof fn lemma_spelling(name: Seq<u8>)
    requires
        is_ascii_bytes(name),
    ensures
        has_part(text::ascii_small(ascii_text(name)), "portable"@) <==> exists|at: int| #[trigger]
            spells_portable(name, at),
{
    reveal_strlit("portable");
    let word = "portable"@;
    let small = text::ascii_small(ascii_text(name));
    assert forall|k: int| 0 <= k < 8 implies 'a' <= #[trigger] word[k] <= 'z' by {}
    assert forall|at: int| 0 <= at <= name.len() - 8 implies (#[trigger] small.subrange(at, at + 8)
        == word <==> spells_portable(name, at)) by {
        let part = small.subrange(at, at + 8);
        assert forall|k: int| 0 <= k < 8 implies (part[k] == #[trigger] word[k] <==> {
            ||| name[at + k] as int == word[k] as int
            ||| name[at + k] + 32 == word[k] as int
        }) by {
            assert(part[k] == text::ascii_lowercase(name[at + k] as char));
            assert(name[at + k] < 128);
        }
        if spells_portable(name, at) {
            assert forall|k: int| 0 <= k < 8 implies part[k] == word[k] by {
                let _ = word[k];
            }
            assert(part =~= word);
        }
        if part == word {
            assert forall|k: int| 0 <= k < 8 implies {
                ||| name[at + k] as int == #[trigger] word[k] as int
                ||| name[at + k] + 32 == word[k] as int
            } by {
                assert(part[k] == word[k]);
            }
        }
    }
    if has_part(small, word) {
        let at = choose|i: int|
            0 <= i <= small.len() - word.len() && #[trigger] small.subrange(i, i + word.len())
                == word;
        assert(small.subrange(at, at + 8) == word);
        assert(spells_portable(name, at));
    }
    if exists|at: int| #[trigger] spells_portable(name, at) {
        let at = choose|at: int| #[trigger] spells_portable(name, at);
        assert(small.subrange(at, at + 8) == word);
        assert(small.subrange(at, at + word.len()) == word);
    }
}

/// A part of a text occurs in it wherever it stands, and only what stands in a
/// text occurs in it.
pub proof fn law_a_part_occurs_where_it_stands(
    before: Seq<char>,
    part: Seq<char>,
    after: Seq<char>,
    text: Seq<char>,
)
    ensures
        has_part(before + part + after, part),
        has_part(text, part) ==> exists|a: Seq<char>, b: Seq<char>|
            text == #[trigger] (a + part + b),
{
    let whole = before + part + after;
    let at = before.len() as int;
    assert(whole.subrange(at, at + part.len()) =~= part);
    if has_part(text, part) {
        let i = choose|i: int|
            0 <= i <= text.len() - part.len() && #[trigger] text.subrange(i, i + part.len())
                == part;
        let a = text.take(i);
        let b = text.skip(i + part.len());
        assert(text =~= a + part + b);
    }
}

/// The word decides, and nothing else: an executable is portable where the word
/// stands in the small letters of its name, and then its directory is where it
/// lies. Without an executable, or without a name, nothing is portable.
pub proof fn law_the_word_decides(name: Vec<u8>, parent: Option<Vec<u8>>)
    ensures
        ({
            let shown = lowercase_text(text::lossy_text(text::ascii_small_bytes(name@)));
            portable_dir(Some(Executable { file_name: Some(name), parent })) == if exists|i: int|
                0 <= i && i + 8 <= shown.len() && #[trigger] shown.subrange(i, i + 8)
                    == "portable"@ {
                parent
            } else {
                None
            }
        }),
        portable_dir(None) is None,
        portable_dir(Some(Executable { file_name: None, parent })) is None,
{
    reveal_strlit("portable");
    let shown = lowercase_text(text::lossy_text(text::ascii_small_bytes(name@)));
    let word = "portable"@;
    if has_part(shown, word) {
        let i = choose|i: int|
            0 <= i <= shown.len() - word.len() && #[trigger] shown.subrange(i, i + word.len())
                == word;
        assert(shown.subrange(i, i + 8) == word);
    }
    if exists|i: int|
        0 <= i && i + 8 <= shown.len() && #[trigger] shown.subrange(i, i + 8) == "portable"@ {
        let i = choose|i: int|
            0 <= i && i + 8 <= shown.len() && #[trigger] shown.subrange(i, i + 8) == "portable"@;
        assert(shown.subrange(i, i + word.len()) == word);
    }
}

} // verus!
