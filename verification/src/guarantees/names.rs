//! Which names are left alone, which are to be renamed, and what a candidate for a name looks like.
use crate::normalizer;
use crate::rename;
use crate::text;
use vstd::prelude::*;
use vstd::string::*;

verus! {

/// The character is this small letter, or its capital.
pub open spec fn is_letter(c: char, small: char) -> bool {
    c == small || ('A' <= c && c <= 'Z' && small as int == c as int + 32)
}

/// The text is this word, in whatever case its ASCII letters are.
pub open spec fn spells(s: Seq<char>, word: Seq<char>) -> bool {
    &&& s.len() == word.len()
    &&& forall|k: int| 0 <= k < s.len() ==> is_letter(#[trigger] s[k], word[k])
}

/// The text is an extension of files that a program is still writing.
pub open spec fn is_unfinished(s: Seq<char>) -> bool {
    ||| spells(s, "crdownload"@)
    ||| spells(s, "download"@)
    ||| spells(s, "part"@)
    ||| spells(s, "partial"@)
    ||| spells(s, "opdownload"@)
    ||| spells(s, "aria2"@)
    ||| spells(s, "tmp"@)
    ||| spells(s, "temp"@)
}

/// The text starts as the name of a hidden file does, or of a lock file.
pub open spec fn is_marked(s: Seq<char>) -> bool {
    ||| s.len() >= 1 && s[0] == '.'
    ||| s.len() >= 2 && s[0] == '~' && s[1] == '$'
}

/// A name made of a stem, a dot, and what follows the dot.
pub open spec fn dotted(stem: Seq<char>, tail: Seq<char>) -> Seq<char> {
    stem + seq!['.'] + tail
}

/// The name is none of those that are left alone.
pub open spec fn is_ordinary(s: Seq<char>) -> bool {
    &&& !is_marked(s)
    &&& forall|stem: Seq<char>, tail: Seq<char>| s == #[trigger] dotted(stem, tail)
        ==> !is_unfinished(tail)
}

proof fn lemma_spells(s: Seq<char>, word: Seq<char>)
    requires
        forall|k: int| 0 <= k < word.len() ==> !('A' <= #[trigger] word[k] && word[k] <= 'Z'),
    ensures
        spells(s, word) <==> text::ascii_lower_text(s) == word,
{
    let low = text::ascii_lower_text(s);
    if spells(s, word) {
        assert forall|k: int| 0 <= k < s.len() implies low[k] == word[k] by {
            assert(is_letter(s[k], word[k]));
        }
        assert(low =~= word);
    }
    if low == word {
        assert forall|k: int| 0 <= k < s.len() implies is_letter(#[trigger] s[k], word[k]) by {
            assert(low[k] == word[k]);
        }
    }
}

proof fn lemma_unfinished(s: Seq<char>)
    ensures
        is_unfinished(s) <==> normalizer::temp_extensions().contains(text::ascii_lower_text(s)),
        is_unfinished(s) ==> !s.contains('.'),
{
    reveal_strlit("crdownload");
    reveal_strlit("download");
    reveal_strlit("part");
    reveal_strlit("partial");
    reveal_strlit("opdownload");
    reveal_strlit("aria2");
    reveal_strlit("tmp");
    reveal_strlit("temp");
    lemma_spells(s, "crdownload"@);
    lemma_spells(s, "download"@);
    lemma_spells(s, "part"@);
    lemma_spells(s, "partial"@);
    lemma_spells(s, "opdownload"@);
    lemma_spells(s, "aria2"@);
    lemma_spells(s, "tmp"@);
    lemma_spells(s, "temp"@);
    let all = normalizer::temp_extensions();
    let low = text::ascii_lower_text(s);
    assert(all[0] == "crdownload"@ && all[1] == "download"@ && all[2] == "part"@);
    assert(all[3] == "partial"@ && all[4] == "opdownload"@ && all[5] == "aria2"@);
    assert(all[6] == "tmp"@ && all[7] == "temp"@);
    if is_unfinished(s) && s.contains('.') {
        let k = choose|k: int| 0 <= k < s.len() && s[k] == '.';
        assert(low[k] == '.');
    }
}

/// A name with a tail that holds no dot: where its last dot is.
proof fn lemma_dotted(name: Seq<char>, stem: Seq<char>, tail: Seq<char>)
    requires
        name == dotted(stem, tail),
        !tail.contains('.'),
    ensures
        text::last_of(name, '.') == stem.len(),
        name.skip(stem.len() as int + 1) == tail,
        name.take(stem.len() as int) == stem,
{
    assert forall|j: int| stem.len() < j < name.len() implies name[j] != '.' by {
        assert(name[j] == tail[j - stem.len() - 1]);
        assert(tail.contains(tail[j - stem.len() - 1]));
    }
    assert(name[stem.len() as int] == '.');
    text::lemma_last_of_is(name, '.', stem.len() as int);
    assert(name.skip(stem.len() as int + 1) =~= tail);
    assert(name.take(stem.len() as int) =~= stem);
}

pub proof fn lemma_ordinary(s: Seq<char>)
    ensures
        is_ordinary(s) <==> !normalizer::skipped(s),
{
    let dot = text::last_of(s, '.');
    text::lemma_last_of(s, '.');
    if dot >= 0 {
        let stem = s.take(dot);
        let tail = s.skip(dot + 1);
        assert(s =~= dotted(stem, tail));
        lemma_unfinished(tail);
    }
    assert forall|stem: Seq<char>, tail: Seq<char>|
        s == #[trigger] dotted(stem, tail) && is_unfinished(tail) implies normalizer::skipped(s) by {
        lemma_unfinished(tail);
        lemma_dotted(s, stem, tail);
    }
}

/// Hidden files and lock files are left alone.
pub proof fn law_marked_names_are_skipped(name: &str, r: bool)
    requires
        call_ensures(normalizer::should_skip, (name,), r),
        is_marked(name@),
    ensures
        r,
{
    lemma_ordinary(name@);
}

/// A file that a program is still writing is left alone, whatever stands in front of the extension
/// and in whatever case the extension is written.
pub proof fn law_unfinished_files_are_skipped(
    name: &str,
    stem: Seq<char>,
    tail: Seq<char>,
    r: bool,
)
    requires
        call_ensures(normalizer::should_skip, (name,), r),
        name@ == dotted(stem, tail),
        is_unfinished(tail),
    ensures
        r,
{
    lemma_ordinary(name@);
}

/// No other file is left alone: one that starts neither with a dot nor with `~$`, and whose text
/// after the last dot is none of the extensions of unfinished files, is not.
pub proof fn law_other_names_are_not_skipped(name: &str, r: bool)
    requires
        call_ensures(normalizer::should_skip, (name,), r),
        !is_marked(name@),
        forall|i: int|
            0 <= i < name@.len() && #[trigger] name@[i] == '.' && !name@.skip(i + 1).contains('.')
                ==> !is_unfinished(name@.skip(i + 1)),
    ensures
        !r,
{
    let s = name@;
    assert forall|stem: Seq<char>, tail: Seq<char>| s == #[trigger] dotted(stem, tail) implies !is_unfinished(
    tail) by {
        lemma_unfinished(tail);
        if is_unfinished(tail) {
            lemma_dotted(s, stem, tail);
            assert(s[stem.len() as int] == '.');
        }
    }
    lemma_ordinary(s);
}

/// A name without a dot is left alone only where it starts as a lock file's does.
pub proof fn law_names_without_a_dot_are_not_skipped(name: &str, r: bool)
    requires
        call_ensures(normalizer::should_skip, (name,), r),
        !name@.contains('.'),
    ensures
        r == (name@.len() >= 2 && name@[0] == '~' && name@[1] == '$'),
{
    if name@.len() >= 1 {
        assert(name@.contains(name@[0]));
    }
    if is_marked(name@) {
        law_marked_names_are_skipped(name, r);
    } else {
        assert forall|i: int| 0 <= i < name@.len() implies #[trigger] name@[i] != '.' by {
            assert(name@.contains(name@[i]));
        }
        law_other_names_are_not_skipped(name, r);
    }
}

/// Of two names that start as ordinary ones do and have the same text after the last dot, both are
/// left alone or neither is.
pub proof fn law_skipping_goes_by_the_extension(
    a: &str,
    b: &str,
    stem: Seq<char>,
    other: Seq<char>,
    tail: Seq<char>,
    r: bool,
    q: bool,
)
    requires
        call_ensures(normalizer::should_skip, (a,), r),
        call_ensures(normalizer::should_skip, (b,), q),
        a@ == dotted(stem, tail),
        b@ == dotted(other, tail),
        !tail.contains('.'),
        !is_marked(a@),
        !is_marked(b@),
    ensures
        r == q,
{
    lemma_dotted(a@, stem, tail);
    lemma_dotted(b@, other, tail);
}

/// A name differs from its composed form if and only if it has to be renamed.
pub proof fn law_names_that_differ_need_renaming(name: &str, composed: String, r: bool)
    requires
        call_ensures(normalizer::nfc, (name,), composed),
        call_ensures(normalizer::needs_normalization, (name,), r),
    ensures
        r == (composed@ != name@),
{
}

/// What was composed does not have to be renamed.
pub proof fn law_composed_names_need_no_renaming(name: &str, composed: String, again: &str, r: bool)
    requires
        call_ensures(normalizer::nfc, (name,), composed),
        again@ == composed@,
        call_ensures(normalizer::needs_normalization, (again,), r),
    ensures
        !r,
{
}

/// A name and its decomposed form have the same composed form.
pub proof fn law_decomposing_loses_nothing(
    name: &str,
    decomposed: String,
    again: &str,
    a: String,
    b: String,
)
    requires
        call_ensures(normalizer::nfd, (name,), decomposed),
        again@ == decomposed@,
        call_ensures(normalizer::nfc, (again,), a),
        call_ensures(normalizer::nfc, (name,), b),
    ensures
        a@ == b@,
        decomposed@ == normalizer::nfd_of(name@),
{
}

/// Two texts differ if and only if they do not have the same characters.
pub proof fn law_texts_differ_by_their_characters(name: &str, composed: &str, r: bool)
    requires
        call_ensures(normalizer::differs_from_composed, (name, composed), r),
    ensures
        r <==> name@.len() != composed@.len() || exists|i: int|
            0 <= i < name@.len() && name@[i] != #[trigger] composed@[i],
{
    if name@.len() == composed@.len() && forall|i: int|
        0 <= i < name@.len() ==> name@[i] == #[trigger] composed@[i] {
        assert(name@ =~= composed@);
    }
}

/// A job for an ordinary name that is not in composed form asks on; for any other it ends at once,
/// with nothing renamed.
pub proof fn law_jobs_start_for_ordinary_names<E>(
    name: &str,
    has_parent: bool,
    process_id: u32,
    r: rename::RenameStep<E>,
)
    requires
        call_ensures(rename::try_normalize::<E>, (Some(name), has_parent, process_id), r),
    ensures
        is_ordinary(name@) && normalizer::nfc_of(name@) != name@ ==> (r matches rename::RenameStep::Ask(
            _,
            request,
        ) && request is Probe),
        !(is_ordinary(name@) && normalizer::nfc_of(name@) != name@)
            ==> r matches rename::RenameStep::Finish(Ok(None)),
{
    lemma_ordinary(name@);
    if r is Ask {
    } else {
        assert(r@ matches rename::StepView::Finish(Ok(None)));
    }
}

/// The number that a text of digits writes.
pub open spec fn number(digits: Seq<char>) -> int
    decreases digits.len(),
{
    if digits.len() == 0 {
        0
    } else {
        10 * number(digits.drop_last()) + (digits.last() as int - '0' as int)
    }
}

/// The text is how this number is usually written: digits, the first of them not zero but for zero
/// itself.
pub open spec fn is_numeral(digits: Seq<char>, n: int) -> bool {
    &&& digits.len() > 0
    &&& forall|k: int| 0 <= k < digits.len() ==> '0' <= #[trigger] digits[k] && digits[k] <= '9'
    &&& digits.len() > 1 ==> digits[0] != '0'
    &&& number(digits) == n
}

pub proof fn lemma_decimal_is_numeral(n: nat)
    ensures
        is_numeral(text::decimal(n), n as int),
        n > 0 ==> text::decimal(n)[0] != '0',
    decreases n,
{
    text::lemma_decimal_injective(n, n);
    let d = text::decimal(n);
    if n < 10 {
        assert(d.drop_last() =~= seq![]);
        assert(number(d.drop_last()) == 0);
    } else {
        lemma_decimal_is_numeral(n / 10);
        assert(d.drop_last() =~= text::decimal(n / 10));
        assert(d[0] == text::decimal(n / 10)[0]);
    }
}

/// What tells the `i`-th candidate apart from the name.
pub open spec fn is_mark(mark: Seq<char>, i: u32) -> bool {
    if i < 1000 {
        exists|digits: Seq<char>|
            #![trigger is_numeral(digits, i as int)]
            is_numeral(digits, i as int) && mark == " ("@ + digits + ")"@
    } else {
        mark == " (dup)"@
    }
}

proof fn lemma_mark(i: u32)
    ensures
        is_mark(normalizer::candidate_mark(i as nat), i),
        !normalizer::candidate_mark(i as nat).contains('.'),
{
    reveal_strlit(" (");
    reveal_strlit(")");
    reveal_strlit(" (dup)");
    lemma_decimal_is_numeral(i as nat);
    let digits = text::decimal(i as nat);
    let mark = normalizer::candidate_mark(i as nat);
    if i < 1000 {
        assert(is_numeral(digits, i as int) && mark == " ("@ + digits + ")"@);
    }
    if mark.contains('.') {
        let k = choose|k: int| 0 <= k < mark.len() && mark[k] == '.';
        if i < 1000 && 2 <= k < mark.len() - 1 {
            assert(mark[k] == digits[k - 2]);
        }
    }
}

/// Where a name has an extension, the mark of a candidate goes right in front of the last dot: what
/// stands in front of the dot, and what follows it, is kept.
pub proof fn law_candidates_are_marked_before_the_extension(
    name: &str,
    i: u32,
    stem: Seq<char>,
    tail: Seq<char>,
    r: String,
)
    requires
        call_ensures(normalizer::unique_target, (name, i), r),
        name@ == dotted(stem, tail),
        stem.len() > 0,
        !tail.contains('.'),
    ensures
        exists|mark: Seq<char>| #[trigger] is_mark(mark, i) && r@ == dotted(stem + mark, tail),
{
    let mark = normalizer::candidate_mark(i as nat);
    lemma_mark(i);
    lemma_dotted(name@, stem, tail);
    assert(r@ =~= dotted(stem + mark, tail));
}

/// Where a name has no dot, or none but one at its start, the mark of a candidate goes to the end.
pub proof fn law_candidates_without_extension_are_marked_at_the_end(name: &str, i: u32, r: String)
    requires
        call_ensures(normalizer::unique_target, (name, i), r),
        forall|k: int| 0 < k < name@.len() ==> #[trigger] name@[k] != '.',
    ensures
        exists|mark: Seq<char>| #[trigger] is_mark(mark, i) && r@ == name@ + mark,
{
    let mark = normalizer::candidate_mark(i as nat);
    lemma_mark(i);
    text::lemma_last_of(name@, '.');
    assert(r@ =~= name@ + mark);
}

/// What follows the last dot of a name, where that is not its first character, follows the last dot
/// of every candidate.
pub proof fn law_candidates_have_the_extension(name: &str, i: u32, dot: int, r: String)
    requires
        call_ensures(normalizer::unique_target, (name, i), r),
        0 < dot < name@.len(),
        name@[dot] == '.',
        forall|k: int| dot < k < name@.len() ==> name@[k] != '.',
    ensures
        exists|at: int|
            #![trigger r@[at]]
            {
                &&& dot < at < r@.len()
                &&& r@[at] == '.'
                &&& forall|k: int| at < k < r@.len() ==> r@[k] != '.'
                &&& r@.skip(at + 1) == name@.skip(dot + 1)
            },
        r@.take(dot) == name@.take(dot),
{
    let mark = normalizer::candidate_mark(i as nat);
    lemma_mark(i);
    text::lemma_last_of_is(name@, '.', dot);
    reveal_strlit(" (");
    reveal_strlit(" (dup)");
    let at = dot + mark.len();
    assert(r@[at] == name@[dot]);
    assert forall|k: int| at < k < r@.len() implies r@[k] != '.' by {
        assert(r@[k] == name@[k - mark.len()]);
    }
    assert(r@.skip(at + 1) =~= name@.skip(dot + 1));
    assert(r@.take(dot) =~= name@.take(dot));
}

/// No two candidates for a name are the same, and none is the name.
pub proof fn law_candidates_are_told_apart(name: &str, i: u32, j: u32, a: String, b: String)
    requires
        call_ensures(normalizer::unique_target, (name, i), a),
        call_ensures(normalizer::unique_target, (name, j), b),
        1 <= i < j <= 1000,
    ensures
        a@ != b@,
        a@ != name@,
        b@ != name@,
{
    normalizer::law_candidates_differ(name@, i as nat, j as nat);
    normalizer::law_candidates_differ(name@, j as nat, i as nat);
}

/// The temporary name is hidden, and tells by its number which process it belongs to.
pub proof fn law_temporary_names_hold_the_process(process_id: u32, r: String)
    requires
        call_ensures(rename::temp_name_of, (process_id,), r),
    ensures
        r@[0] == '.',
        exists|digits: Seq<char>|
            #![trigger is_numeral(digits, process_id as int)]
            is_numeral(digits, process_id as int) && r@ == ".nfc-tmp-"@ + digits,
{
    reveal_strlit(".nfc-tmp-");
    lemma_decimal_is_numeral(process_id as nat);
    let digits = text::decimal(process_id as nat);
    assert(is_numeral(digits, process_id as int) && r@ == ".nfc-tmp-"@ + digits);
}

} // verus!
