//! References to issues, as they are written in the text of an issue: what
//! they are made of, and the URL that each stands for.

use vstd::prelude::*;
use vstd::string::*;

use crate::matcher::{link_views, Link, LinkKind, LinkView};
use crate::part::{stands_in, Part, PartView};
use crate::text::{chars_of, starts_with};

verus! {

/// The pattern of the words that introduce a dependency, at the start of a line.
pub const DEPENDS_ON_PREFIX: &'static str =
    r"\A(?i-u)[[:space:]]*depends[[:space:]]+on[[:space:]]*:?[[:space:]]*";

/// The pattern of a reference to an issue of the same repository.
pub const HASH_NUMBER: &'static str = r"(?:\A|[^0-9A-Za-z_-])#([0-9]+)(?:\z|[^0-9A-Za-z_-])";

/// The pattern of a reference to an issue of another repository.
pub const OWNER_REPO_NUMBER: &'static str =
    r"(?-u:\b)([0-9A-Za-z_-]+)/([0-9A-Za-z_-]+)#([0-9]+)(?-u:\b)";

/// A decimal digit.
pub open spec fn is_digit(c: char) -> bool {
    '0' <= c <= '9'
}

/// A character of a word: a digit, a letter of the alphabet, or `_`.
pub open spec fn is_word_char(c: char) -> bool {
    is_digit(c) || 'A' <= c <= 'Z' || 'a' <= c <= 'z' || c == '_'
}

/// A character of the name of an owner or a repository: a character of a
/// word, or `-`.
pub open spec fn is_name_char(c: char) -> bool {
    is_word_char(c) || c == '-'
}

/// One digit or more, and nothing else.
pub open spec fn is_number(s: Seq<char>) -> bool {
    s.len() > 0 && forall|i: int| 0 <= i < s.len() ==> is_digit(#[trigger] s[i])
}

/// One character of a name or more, and nothing else.
pub open spec fn is_name(s: Seq<char>) -> bool {
    s.len() > 0 && forall|i: int| 0 <= i < s.len() ==> is_name_char(#[trigger] s[i])
}

/// A number that refers to an issue of the same repository: it follows a
/// `#`, and neither the `#` nor the number borders on a character of a name.
pub open spec fn is_short_reference(number: PartView) -> bool {
    &&& is_number(number.text)
    &&& number.before.len() > 0 && number.before.last() == '#'
    &&& number.before.len() >= 2 ==> !is_name_char(number.before[number.before.len() - 2])
    &&& number.after.len() > 0 ==> !is_name_char(number.after[0])
}

/// Owner, repository and number that refer to an issue of another
/// repository: the names are joined by `/`, the number follows a `#` after
/// them, and a word begins where the owner begins and ends where the number
/// ends.
pub open spec fn is_cross_reference(owner: PartView, repo: PartView, number: PartView) -> bool {
    &&& is_name(owner.text)
    &&& is_name(repo.text)
    &&& is_number(number.text)
    &&& (owner.before.len() > 0 && is_word_char(owner.before.last())) != is_word_char(
        owner.text[0],
    )
    &&& owner.after.len() > 0 && owner.after[0] == '/'
    &&& repo.before.len() == owner.before.len() + owner.text.len() + 1
    &&& repo.after.len() > 0 && repo.after[0] == '#'
    &&& number.before.len() == repo.before.len() + repo.text.len() + 1
    &&& number.after.len() > 0 ==> !is_word_char(number.after[0])
}

/// A reference to an issue of the same repository stands in a text as `#`
/// and a number, between what is no character of a name.
pub proof fn lemma_short_reference_in_text(text: Seq<char>, number: PartView)
    requires
        stands_in(number, text),
        is_short_reference(number),
    ensures
        text == number.before.drop_last() + seq!['#'] + number.text + number.after,
        number.before.drop_last().len() > 0 ==> !is_name_char(number.before.drop_last().last()),
        number.after.len() > 0 ==> !is_name_char(number.after[0]),
{
    assert(number.before =~= number.before.drop_last() + seq!['#']);
    assert(text =~= number.before.drop_last() + seq!['#'] + number.text + number.after);
}

/// A reference to an issue of another repository stands in a text as
/// owner, `/`, repository, `#` and number, one after the other.
pub proof fn lemma_cross_reference_in_text(
    text: Seq<char>,
    owner: PartView,
    repo: PartView,
    number: PartView,
)
    requires
        stands_in(owner, text),
        stands_in(repo, text),
        stands_in(number, text),
        is_cross_reference(owner, repo, number),
    ensures
        text == owner.before + owner.text + seq!['/'] + repo.text + seq!['#'] + number.text
            + number.after,
{
    let joined = owner.before + owner.text + seq!['/'] + repo.text + seq!['#'] + number.text
        + number.after;
    let owner_end = owner.before.len() + owner.text.len();
    let repo_end = repo.before.len() + repo.text.len();
    assert(text =~= owner.before + owner.text + owner.after);
    assert(text =~= repo.before + repo.text + repo.after);
    assert(text =~= number.before + number.text + number.after);
    assert(text[owner_end as int] == owner.after[0]);
    assert(text[repo_end as int] == repo.after[0]);
    assert(joined.len() == text.len());
    assert forall|i: int| 0 <= i < text.len() implies text[i] == joined[i] by {
        if i < owner.before.len() {
            assert(text[i] == owner.before[i]);
        } else if i < owner_end {
            assert(text[i] == owner.text[i - owner.before.len()]);
        } else if i == owner_end {
        } else if i < repo_end {
            assert(text[i] == repo.text[i - repo.before.len()]);
        } else if i == repo_end {
        } else if i < number.before.len() + number.text.len() {
            assert(text[i] == number.text[i - number.before.len()]);
        } else {
            assert(text[i] == number.after[i - number.before.len() - number.text.len()]);
        }
    }
    assert(text =~= joined);
}

/// The groups of a match, the whole match left out, where the match has
/// `count` groups besides and each took part.
pub open spec fn groups_of_match(groups: Seq<Option<PartView>>, count: nat) -> Option<
    Seq<PartView>,
> {
    if groups.len() == count + 1 && (forall|i: int| 1 <= i <= count ==> groups[i] is Some) {
        Some(Seq::new(count, |i: int| groups[i + 1]->0))
    } else {
        None
    }
}

/// The URL of the issue with the number that a match of `HASH_NUMBER` holds,
/// in the repository at `repository`; none, where what was captured is no
/// reference to an issue of the same repository.
pub open spec fn same_repository_url(
    repository: Seq<char>,
    found: Option<Seq<Option<PartView>>>,
) -> Option<Seq<char>> {
    match found {
        Some(groups) => match groups_of_match(groups, 1) {
            Some(parts) => if is_short_reference(parts[0]) {
                Some(repository + "/issues/"@ + parts[0].text)
            } else {
                None
            },
            None => None,
        },
        None => None,
    }
}

/// The URL of the issue that a match of `OWNER_REPO_NUMBER` names by owner,
/// repository and number; none, where what was captured is no reference to
/// an issue of another repository.
pub open spec fn other_repository_url(found: Option<Seq<Option<PartView>>>) -> Option<
    Seq<char>,
> {
    match found {
        Some(groups) => match groups_of_match(groups, 3) {
            Some(parts) => if is_cross_reference(parts[0], parts[1], parts[2]) {
                Some(
                    "https://github.com/"@ + parts[0].text + "/"@ + parts[1].text + "/issues/"@
                        + parts[2].text,
                )
            } else {
                None
            },
            None => None,
        },
        None => None,
    }
}

/// A URL below `github.com`, by either scheme.
pub open spec fn is_github_url(url: Seq<char>) -> bool {
    "http://github.com/"@.is_prefix_of(url) || "https://github.com/"@.is_prefix_of(url)
}

/// The first of `links`, from index `from` on, that is a URL below `github.com`.
pub open spec fn first_github_link(links: Seq<LinkView>, from: int) -> Option<Seq<char>>
    decreases links.len() - from,
{
    if from < 0 || from >= links.len() {
        None
    } else if links[from].kind == LinkKind::Url && is_github_url(links[from].text) {
        Some(links[from].text)
    } else {
        first_github_link(links, from + 1)
    }
}

fn groups_of<'a>(found: Option<Vec<Option<Part<'a>>>>, count: usize) -> (r: Option<
    Vec<Part<'a>>,
>)
    requires
        count < usize::MAX,
    ensures
        match (r, found.deep_view()) {
            (Some(parts), Some(groups)) => parts.len() == count && groups_of_match(
                groups,
                count as nat,
            ) == Some(parts.deep_view()),
            (None, Some(groups)) => groups_of_match(groups, count as nat) is None,
            (None, None) => true,
            (Some(_), None) => false,
        },
{
    match found {
        None => None,
        Some(groups) => {
            if groups.len() != count + 1 {
                return None;
            }
            let ghost all = groups.deep_view();
            let mut parts: Vec<Part<'a>> = Vec::new();
            let mut i: usize = 1;
            while i <= count
                invariant
                    1 <= i <= count + 1,
                    groups.len() == count + 1,
                    count < usize::MAX,
                    groups.deep_view() == all,
                    found.deep_view() == Some(all),
                    parts.len() == i - 1,
                    forall|k: int| 1 <= k < i ==> all[k] is Some,
                    forall|k: int| 0 <= k < i - 1 ==> (#[trigger] parts[k])@ == all[k + 1]->0,
                decreases count + 1 - i,
            {
                match groups[i] {
                    None => {
                        assert(all[i as int] is None);
                        return None;
                    },
                    Some(part) => {
                        assert(all[i as int] == Some(part@));
                        parts.push(part);
                    },
                }
                i += 1;
            }
            assert(parts.deep_view() =~= Seq::new(count as nat, |i: int| all[i + 1]->0));
            Some(parts)
        },
    }
}

fn is_digit_char(c: char) -> (b: bool)
    ensures
        b == is_digit(c),
{
    c >= '0' && c <= '9'
}

fn is_word_character(c: char) -> (b: bool)
    ensures
        b == is_word_char(c),
{
    is_digit_char(c) || (c >= 'A' && c <= 'Z') || (c >= 'a' && c <= 'z') || c == '_'
}

fn is_name_character(c: char) -> (b: bool)
    ensures
        b == is_name_char(c),
{
    is_word_character(c) || c == '-'
}

fn check_number(chars: &Vec<char>) -> (b: bool)
    ensures
        b == is_number(chars@),
{
    let mut i: usize = 0;
    while i < chars.len()
        invariant
            i <= chars.len(),
            forall|k: int| 0 <= k < i ==> is_digit(#[trigger] chars@[k]),
        decreases chars.len() - i,
    {
        if !is_digit_char(chars[i]) {
            return false;
        }
        i += 1;
    }
    chars.len() > 0
}

fn check_name(chars: &Vec<char>) -> (b: bool)
    ensures
        b == is_name(chars@),
{
    let mut i: usize = 0;
    while i < chars.len()
        invariant
            i <= chars.len(),
            forall|k: int| 0 <= k < i ==> is_name_char(#[trigger] chars@[k]),
        decreases chars.len() - i,
    {
        if !is_name_character(chars[i]) {
            return false;
        }
        i += 1;
    }
    chars.len() > 0
}

/// Whether `total` is one more than the sum of `first` and `second`.
fn follows_by_one(total: usize, first: usize, second: usize) -> (b: bool)
    ensures
        b == (total == first + second + 1),
{
    // Subtracting stays within the numbers that there are; adding might not.
    total > first && total - first > second && total - first - second == 1
}

/// Whether `number` refers to an issue of the same repository.
pub fn check_short_reference(number: &Part) -> (b: bool)
    ensures
        b == is_short_reference(number@),
{
    let before = chars_of(number.before);
    let after = chars_of(number.after);
    check_number(&chars_of(number.text)) && before.len() > 0 && before[before.len() - 1] == '#'
        && (before.len() < 2 || !is_name_character(before[before.len() - 2])) && (after.len() == 0
        || !is_name_character(after[0]))
}

/// Whether `owner`, `repo` and `number` refer to an issue of another
/// repository.
pub fn check_cross_reference(owner: &Part, repo: &Part, number: &Part) -> (b: bool)
    ensures
        b == is_cross_reference(owner@, repo@, number@),
{
    let owner_text = chars_of(owner.text);
    let owner_before = chars_of(owner.before);
    let owner_after = chars_of(owner.after);
    let repo_text = chars_of(repo.text);
    let repo_before = chars_of(repo.before);
    let repo_after = chars_of(repo.after);
    let number_before = chars_of(number.before);
    let number_after = chars_of(number.after);
    if !check_name(&owner_text) || !check_name(&repo_text) || !check_number(
        &chars_of(number.text),
    ) {
        return false;
    }
    let word_before = owner_before.len() > 0 && is_word_character(
        owner_before[owner_before.len() - 1],
    );
    if word_before == is_word_character(owner_text[0]) {
        return false;
    }
    if owner_after.len() == 0 || owner_after[0] != '/' {
        return false;
    }
    if repo_after.len() == 0 || repo_after[0] != '#' {
        return false;
    }
    if number_after.len() > 0 && is_word_character(number_after[0]) {
        return false;
    }
    follows_by_one(repo_before.len(), owner_before.len(), owner_text.len()) && follows_by_one(
        number_before.len(),
        repo_before.len(),
        repo_text.len(),
    )
}

/// The URL of the issue in the repository at `repository` whose number a
/// match of `HASH_NUMBER` holds; `found` is what was captured.
pub fn url_in_same_repository(repository: &str, found: Option<Vec<Option<Part>>>) -> (r: Option<
    String,
>)
    ensures
        r.deep_view() == same_repository_url(repository@, found.deep_view()),
{
    match groups_of(found, 1) {
        None => None,
        Some(parts) => {
            assert(parts.deep_view()[0] == parts[0]@);
            if check_short_reference(&parts[0]) {
                Some(repository.to_owned().concat("/issues/").concat(parts[0].text))
            } else {
                None
            }
        },
    }
}

/// The URL of the issue that a match of `OWNER_REPO_NUMBER` names; `found` is
/// what was captured.
pub fn url_in_other_repository(found: Option<Vec<Option<Part>>>) -> (r: Option<String>)
    ensures
        r.deep_view() == other_repository_url(found.deep_view()),
{
    match groups_of(found, 3) {
        None => None,
        Some(parts) => {
            assert(parts.deep_view()[0] == parts[0]@);
            assert(parts.deep_view()[1] == parts[1]@);
            assert(parts.deep_view()[2] == parts[2]@);
            if check_cross_reference(&parts[0], &parts[1], &parts[2]) {
                Some(
                    "https://github.com/".to_owned().concat(parts[0].text).concat("/").concat(
                        parts[1].text,
                    ).concat("/issues/").concat(parts[2].text),
                )
            } else {
                None
            }
        },
    }
}

/// Whether `url` lies below `github.com`.
pub fn is_github(url: &str) -> (b: bool)
    ensures
        b == is_github_url(url@),
{
    starts_with(url, "http://github.com/") || starts_with(url, "https://github.com/")
}

/// The first of `links` that is a URL below `github.com`.
pub fn first_github_url<'a>(links: &Vec<Link<'a>>) -> (r: Option<&'a str>)
    ensures
        r.deep_view() == first_github_link(link_views(links@), 0),
{
    let mut i: usize = 0;
    while i < links.len()
        invariant
            i <= links.len(),
            first_github_link(link_views(links@), 0) == first_github_link(
                link_views(links@),
                i as int,
            ),
        decreases links.len() - i,
    {
        let link = &links[i];
        assert(link_views(links@)[i as int] == link@);
        match link.kind {
            LinkKind::Url => {
                if is_github(link.text) {
                    return Some(link.text);
                }
            },
            LinkKind::Email => {},
            LinkKind::Other => {},
        }
        i += 1;
    }
    None
}

/// The first link that is a URL below `github.com` is a URL below
/// `github.com`.
pub proof fn lemma_first_github_link(links: Seq<LinkView>, from: int)
    ensures
        first_github_link(links, from) matches Some(url) ==> is_github_url(url),
    decreases links.len() - from,
{
    if 0 <= from < links.len() {
        lemma_first_github_link(links, from + 1);
    }
}

/// White space among the characters of seven bits.
pub open spec fn is_space(c: char) -> bool {
    '\u{9}' <= c <= '\u{d}' || c == ' '
}

/// The index of the first character at or after `from` that is no space;
/// the length of `s` if there is none.
pub open spec fn spaces_end(s: Seq<char>, from: int) -> int
    decreases s.len() - from,
{
    if 0 <= from < s.len() && is_space(s[from]) {
        spaces_end(s, from + 1)
    } else {
        from
    }
}

/// Whether `c` is the letter `small` or its capital `large`.
pub open spec fn is_letter(c: char, small: char, large: char) -> bool {
    c == small || c == large
}

/// Whether the word "depends" stands in `s` at `i`, in small letters or
/// capitals.
pub open spec fn is_depends(s: Seq<char>, i: int) -> bool {
    &&& 0 <= i && i + 7 <= s.len()
    &&& is_letter(s[i], 'd', 'D')
    &&& is_letter(s[i + 1], 'e', 'E')
    &&& is_letter(s[i + 2], 'p', 'P')
    &&& is_letter(s[i + 3], 'e', 'E')
    &&& is_letter(s[i + 4], 'n', 'N')
    &&& is_letter(s[i + 5], 'd', 'D')
    &&& is_letter(s[i + 6], 's', 'S')
}

/// Whether the word "on" stands in `s` at `i`, in small letters or capitals.
pub open spec fn is_on(s: Seq<char>, i: int) -> bool {
    &&& 0 <= i && i + 2 <= s.len()
    &&& is_letter(s[i], 'o', 'O')
    &&& is_letter(s[i + 1], 'n', 'N')
}

/// Whether `s` is made of the words that introduce a dependency: "depends"
/// and "on" with space between them, then a colon or none; space may stand at
/// the start, before the colon and at the end.
pub open spec fn is_depends_on_words(s: Seq<char>) -> bool {
    let depends = spaces_end(s, 0);
    let on = spaces_end(s, depends + 7);
    let colon = spaces_end(s, on + 2);
    let end = if colon < s.len() && s[colon] == ':' {
        spaces_end(s, colon + 1)
    } else {
        colon
    };
    is_depends(s, depends) && depends + 7 < on && is_on(s, on) && end == s.len()
}

/// Whether `prefix` is the start of a line and is made of the words that
/// introduce a dependency.
pub open spec fn is_depends_on_prefix(prefix: PartView) -> bool {
    prefix.before.len() == 0 && is_depends_on_words(prefix.text)
}

/// Whether `line` starts with the words that introduce a dependency.
pub open spec fn starts_with_depends_on(line: Seq<char>) -> bool {
    exists|words: Seq<char>, rest: Seq<char>|
        line == #[trigger] (words + rest) && is_depends_on_words(words)
}

fn is_space_char(c: char) -> (b: bool)
    ensures
        b == is_space(c),
{
    (c >= '\u{9}' && c <= '\u{d}') || c == ' '
}

fn skip_spaces(chars: &Vec<char>, from: usize) -> (end: usize)
    ensures
        end == spaces_end(chars@, from as int),
        from <= end,
        from <= chars.len() ==> end <= chars.len(),
{
    let mut end = from;
    while end < chars.len() && is_space_char(chars[end])
        invariant
            from <= end,
            from <= chars.len() ==> end <= chars.len(),
            spaces_end(chars@, from as int) == spaces_end(chars@, end as int),
        decreases chars.len() - end,
    {
        end += 1;
    }
    end
}

fn is_letter_char(c: char, small: char, large: char) -> (b: bool)
    ensures
        b == is_letter(c, small, large),
{
    c == small || c == large
}

/// Whether `prefix` is the start of a line and is made of the words that
/// introduce a dependency.
pub fn check_depends_on_prefix(prefix: &Part) -> (b: bool)
    ensures
        b == is_depends_on_prefix(prefix@),
{
    if !prefix.before.is_empty() {
        return false;
    }
    let s = chars_of(prefix.text);
    let depends = skip_spaces(&s, 0);
    if s.len() - depends < 7 {
        return false;
    }
    if !(is_letter_char(s[depends], 'd', 'D') && is_letter_char(s[depends + 1], 'e', 'E')
        && is_letter_char(s[depends + 2], 'p', 'P') && is_letter_char(s[depends + 3], 'e', 'E')
        && is_letter_char(s[depends + 4], 'n', 'N') && is_letter_char(s[depends + 5], 'd', 'D')
        && is_letter_char(s[depends + 6], 's', 'S')) {
        return false;
    }
    let on = skip_spaces(&s, depends + 7);
    if on == depends + 7 || s.len() - on < 2 {
        return false;
    }
    if !(is_letter_char(s[on], 'o', 'O') && is_letter_char(s[on + 1], 'n', 'N')) {
        return false;
    }
    let colon = skip_spaces(&s, on + 2);
    let end = if colon < s.len() && s[colon] == ':' {
        skip_spaces(&s, colon + 1)
    } else {
        colon
    };
    end == s.len()
}

} // verus!
