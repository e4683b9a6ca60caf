//! Which file names need composing, which are left alone, and what a composed name is called
//! where it is taken.
use crate::text;
use unicode_normalization::UnicodeNormalization;
use vstd::prelude::*;
use vstd::string::*;
use vstd::utf8::*;

verus! {

/// Normalization Form C of a text, as `unicode_normalization` computes it.
pub uninterp spec fn nfc_of(name: Seq<char>) -> Seq<char>;

/// The text is in composed form, and stays so when ASCII text is inserted at its end or in front
/// of one of its ASCII characters.
pub open spec fn is_composed(name: Seq<char>) -> bool {
    &&& nfc_of(name) == name
    &&& forall|k: int, t: Seq<char>|
        0 <= k <= name.len() && (k < name.len() ==> (name[k] as nat) < 128) && is_ascii_chars(t)
            ==> nfc_of(#[trigger] text::insert_text(name, k, t)) == text::insert_text(name, k, t)
}

/// The composed form of a file name.
///
/// Trusted: collects `UnicodeNormalization::nfc` of `unicode_normalization` into a `String`. The
/// result is named `nfc_of`. Beyond that: ASCII text is its own composed form; what comes out is
/// in composed form; and no ASCII character ever composes with the character in front of it, so
/// that a composed text with ASCII text inserted before an ASCII character, or at the end, is
/// still composed.
#[verifier::external_body]
pub fn nfc(name: &str) -> (r: String)
    ensures
        r@ == nfc_of(name@),
        is_ascii_chars(name@) ==> r@ == name@,
        is_composed(r@),
{
    name.nfc().collect()
}

/// Normalization Form D of a text, as `unicode_normalization` computes it.
pub uninterp spec fn nfd_of(name: Seq<char>) -> Seq<char>;

/// The decomposed form of a file name.
///
/// Trusted: collects `UnicodeNormalization::nfd` of `unicode_normalization` into a `String`. The
/// result is named `nfd_of`. Composing starts by the same decomposition, which leaves decomposed
/// text as it is, so the decomposed form composes to what the name composes to.
#[verifier::external_body]
fn decompose(name: &str) -> (r: String)
    ensures
        r@ == nfd_of(name@),
        nfc_of(r@) == nfc_of(name@),
{
    name.nfd().collect()
}

/// The form in which some file systems store a name. It composes to what the name composes to, so
/// that the way there and back ends at the composed form.
pub fn nfd(name: &str) -> (r: String)
    ensures
        r@ == nfd_of(name@),
        nfc_of(r@) == nfc_of(name@),
{
    decompose(name)
}

/// Whether a file name differs from the composed form computed for it.
pub fn differs_from_composed(name: &str, composed: &str) -> (r: bool)
    ensures
        r == (composed@ != name@),
{
    !text::same_text(composed, name)
}

/// Whether a file name has to be renamed to be in composed form.
pub fn needs_normalization(name: &str) -> (r: bool)
    ensures
        r == (nfc_of(name@) != name@),
        is_ascii_chars(name@) ==> !r,
{
    differs_from_composed(name, nfc(name).as_str())
}

/// Extensions of files that a program is still writing: downloads in progress (Chrome and Edge,
/// Safari, Firefox, Internet Explorer, Opera, aria2) and temporary files.
pub open spec fn temp_extensions() -> Seq<Seq<char>> {
    seq![
        "crdownload"@,
        "download"@,
        "part"@,
        "partial"@,
        "opdownload"@,
        "aria2"@,
        "tmp"@,
        "temp"@,
    ]
}

/// What follows the last dot of a name, where there is a dot.
pub open spec fn extension_of(name: Seq<char>) -> Option<Seq<char>> {
    let dot = text::last_of(name, '.');
    if dot >= 0 {
        Some(name.skip(dot + 1))
    } else {
        None
    }
}

/// The name is hidden (it starts with a dot), belongs to an office lock file (it starts with
/// `~$`), or has the extension of a temporary file, in whatever ASCII case.
pub open spec fn skipped(name: Seq<char>) -> bool {
    ||| name.len() >= 1 && name[0] == '.'
    ||| name.len() >= 2 && name[0] == '~' && name[1] == '$'
    ||| extension_of(name) matches Some(ext) && temp_extensions().contains(
        text::ascii_lower_text(ext),
    )
}

/// Whether a file of this name is left alone.
pub fn should_skip(name: &str) -> (r: bool)
    ensures
        r == skipped(name@),
{
    let chars: Vec<char> = text::text_chars(name);
    if chars.len() >= 1 && chars[0] == '.' {
        return true;
    }
    if chars.len() >= 2 && chars[0] == '~' && chars[1] == '$' {
        return true;
    }
    match text::find_last(&chars, '.') {
        Some(dot) => is_temp_extension(&chars, dot + 1),
        None => false,
    }
}

/// Whether the characters from position `from` on are the extension of a temporary file.
fn is_temp_extension(chars: &Vec<char>, from: usize) -> (r: bool)
    requires
        from <= chars@.len(),
    ensures
        r == temp_extensions().contains(text::ascii_lower_text(chars@.skip(from as int))),
{
    let ghost ext = text::ascii_lower_text(chars@.skip(from as int));
    let r = text::tail_is(chars, from, "crdownload")
        || text::tail_is(chars, from, "download")
        || text::tail_is(chars, from, "part")
        || text::tail_is(chars, from, "partial")
        || text::tail_is(chars, from, "opdownload")
        || text::tail_is(chars, from, "aria2")
        || text::tail_is(chars, from, "tmp")
        || text::tail_is(chars, from, "temp");
    proof {
        let all = temp_extensions();
        assert(all[0] == "crdownload"@ && all[1] == "download"@ && all[2] == "part"@);
        assert(all[3] == "partial"@ && all[4] == "opdownload"@ && all[5] == "aria2"@);
        assert(all[6] == "tmp"@ && all[7] == "temp"@);
        assert(all.contains(ext) ==> r);
    }
    r
}

/// How much of a name stands in front of its extension: all of it where the name has no dot, or
/// no dot but one at its start.
pub open spec fn stem_len(name: Seq<char>) -> int {
    let dot = text::last_of(name, '.');
    if dot > 0 {
        dot
    } else {
        name.len() as int
    }
}

/// The mark that tells the `i`-th candidate apart: ` (i)`, and ` (dup)` once a thousand is
/// reached.
pub open spec fn candidate_mark(i: nat) -> Seq<char> {
    if i < 1000 {
        " ("@ + text::decimal(i) + ")"@
    } else {
        " (dup)"@
    }
}

/// The `i`-th name to try where `name` is taken: the mark goes between stem and extension.
pub open spec fn candidate_name(name: Seq<char>, i: nat) -> Seq<char> {
    text::insert_text(name, stem_len(name), candidate_mark(i))
}

/// The `i`-th name to try where `nfc_name` is taken.
pub fn unique_target(nfc_name: &str, i: u32) -> (r: String)
    ensures
        r@ == candidate_name(nfc_name@, i as nat),
{
    let chars: Vec<char> = text::text_chars(nfc_name);
    let k: usize = match text::find_last(&chars, '.') {
        Some(dot) => if dot > 0 {
            dot
        } else {
            chars.len()
        },
        None => chars.len(),
    };
    let mut out: String = nfc_name.substring_char(0, k).to_owned();
    if i < 1000 {
        out.append(" (");
        text::append_decimal(&mut out, i);
        out.append(")");
    } else {
        out.append(" (dup)");
    }
    out.append(nfc_name.substring_char(k, chars.len()));
    assert(out@ =~= candidate_name(nfc_name@, i as nat));
    out
}

proof fn lemma_candidate_mark_ascii(i: nat)
    ensures
        is_ascii_chars(candidate_mark(i)),
{
    reveal_strlit(" (");
    reveal_strlit(")");
    reveal_strlit(" (dup)");
    text::lemma_decimal_ascii(i);
}

/// Candidates of a composed name are in composed form.
pub proof fn law_candidates_stay_composed(name: Seq<char>, i: nat)
    requires
        is_composed(name),
    ensures
        nfc_of(candidate_name(name, i)) == candidate_name(name, i),
{
    lemma_candidate_mark_ascii(i);
    text::lemma_last_of(name, '.');
}

/// No two candidates for a name are the same, and none is the name itself.
pub proof fn law_candidates_differ(name: Seq<char>, i: nat, j: nat)
    requires
        1 <= i <= 1000,
        1 <= j <= 1000,
        i != j,
    ensures
        candidate_name(name, i) != candidate_name(name, j),
        candidate_name(name, i) != name,
{
    let k = stem_len(name);
    text::lemma_last_of(name, '.');
    assert(candidate_mark(i) != candidate_mark(j)) by {
        reveal_strlit(" (");
        reveal_strlit(")");
        reveal_strlit(" (dup)");
        text::lemma_decimal_injective(i, j);
        text::lemma_decimal_injective(j, i);
        let a = candidate_mark(i);
        let b = candidate_mark(j);
        if a == b {
            if i < 1000 && j < 1000 {
                assert(a.subrange(2, a.len() - 1) =~= text::decimal(i));
                assert(b.subrange(2, b.len() - 1) =~= text::decimal(j));
            } else if i < 1000 {
                assert(a[2] == text::decimal(i)[0]);
                assert(b[2] == 'd');
            } else {
                assert(b[2] == text::decimal(j)[0]);
                assert(a[2] == 'd');
            }
        }
    }
    if candidate_name(name, i) == candidate_name(name, j) {
        text::lemma_insert_injective(name, k, candidate_mark(i), candidate_mark(j));
    }
    assert(candidate_mark(i).len() > 0) by {
        reveal_strlit(" (");
        reveal_strlit(" (dup)");
    }
}

/// A candidate has the extension of the name.
pub proof fn law_candidates_keep_extension(name: Seq<char>, i: nat)
    requires
        stem_len(name) < name.len(),
    ensures
        extension_of(candidate_name(name, i)) == extension_of(name),
{
    let k = stem_len(name);
    let mark = candidate_mark(i);
    let out = candidate_name(name, i);
    text::lemma_last_of(name, '.');
    assert(text::is_last_of(out, '.', k + mark.len())) by {
        assert(out[k + mark.len()] == name[k]);
        assert forall|j: int| k + mark.len() < j < out.len() implies out[j] != '.' by {
            assert(out[j] == name[j - mark.len()]);
        }
    }
    text::lemma_last_of_is(out, '.', k + mark.len());
    assert(out.skip(k + mark.len() + 1) =~= name.skip(k + 1));
}

} // verus!
