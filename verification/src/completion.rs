//! Completion of the scan root: which directory is listed for a partly typed
//! path, which of its entries are offered, and how an offer is labelled.

use vstd::prelude::*;
use crate::model::{opt_string_view, strings_view};
use crate::text::{chars_of, push_char, sort_texts, texts_ordered, texts_increasing, equal_to,
    law_ordered_arrangement_is_unique, lemma_filter_element_occurs};

verus! {

/// What `Path::parent` gives for a path, taken as text.
pub uninterp spec fn parent_of(path: Seq<char>) -> Option<Seq<char>>;

/// What `Path::file_name` gives for a path, taken as text.
pub uninterp spec fn file_name_of(path: Seq<char>) -> Option<Seq<char>>;

/// What `Path::join` gives for a directory and a name, taken as text.
pub uninterp spec fn path_join_of(dir: Seq<char>, name: Seq<char>) -> Seq<char>;

/// `std::path::Path::parent`, on a path given as text; the parent of a
/// path that is valid UTF-8 is valid UTF-8 too, so the conversion back to
/// text loses nothing. The result is named, not spelled out: it follows the
/// component rules of `Path`.
#[verifier::external_body]
fn path_parent(path: &str) -> (parent: Option<String>)
    ensures
        opt_string_view(parent) == parent_of(path@),
{
    match std::path::Path::new(path).parent() {
        Some(p) => Some(p.to_string_lossy().into_owned()),
        None => None,
    }
}

/// `std::path::Path::file_name`, on a path given as text; the last
/// component of a valid UTF-8 path is valid UTF-8, so the conversion loses
/// nothing. The result is named: it follows the component rules of `Path`.
#[verifier::external_body]
fn path_file_name(path: &str) -> (name: Option<String>)
    ensures
        opt_string_view(name) == file_name_of(path@),
{
    match std::path::Path::new(path).file_name() {
        Some(n) => Some(n.to_string_lossy().into_owned()),
        None => None,
    }
}

/// `std::path::Path::join` of a directory and an entry name, both text. The
/// joined path is made of the two texts (an absolute name replaces the
/// directory, and a separator may go between), so the conversion back to
/// text loses nothing. The result is named.
#[verifier::external_body]
fn path_join(dir: &str, name: &str) -> (joined: String)
    ensures
        joined@ == path_join_of(dir@, name@),
{
    std::path::Path::new(dir).join(name).to_string_lossy().into_owned()
}

/// `dirs_next::home_dir`, as text. The answer comes from the environment
/// and the user database, so nothing is stated of it.
#[verifier::external_body]
fn home_dir_text() -> (home: Option<String>) {
    match dirs_next::home_dir() {
        Some(h) => Some(h.to_string_lossy().into_owned()),
        None => None,
    }
}

/// Whether `s` begins with `p`.
pub open spec fn starts_with(s: Seq<char>, p: Seq<char>) -> bool {
    p.len() <= s.len() && s.take(p.len() as int) == p
}

/// Whether `s` ends with a slash.
pub open spec fn ends_with_slash(s: Seq<char>) -> bool {
    s.len() > 0 && s.last() == '/'
}

/// The input with a leading `~` replaced by the home directory, when one is
/// known.
pub open spec fn expanded_input(input: Seq<char>, home: Option<Seq<char>>) -> Seq<char> {
    if input.len() > 0 && input[0] == '~' {
        match home {
            Some(h) => h + input.skip(1),
            None => input,
        }
    } else {
        input
    }
}

/// The directory listed for an expanded input: the input itself when it ends
/// with a slash, else its parent, else the root.
pub open spec fn listed_dir(path: Seq<char>) -> Seq<char> {
    if ends_with_slash(path) {
        path
    } else {
        match parent_of(path) {
            Some(p) => p,
            None => "/"@,
        }
    }
}

/// The part of an expanded input that offered names must begin with: nothing
/// when it ends with a slash, else its last component, else nothing.
pub open spec fn typed_prefix(path: Seq<char>) -> Seq<char> {
    if ends_with_slash(path) {
        Seq::empty()
    } else {
        match file_name_of(path) {
            Some(n) => n,
            None => Seq::empty(),
        }
    }
}

/// Whether the text begins with the given text.
pub fn text_starts_with(s: &str, p: &str) -> (b: bool)
    ensures
        b == starts_with(s@, p@),
{
    let sc = chars_of(s);
    let pc = chars_of(p);
    if pc.len() > sc.len() {
        return false;
    }
    let mut i: usize = 0;
    while i < pc.len()
        invariant
            pc@ == p@,
            sc@ == s@,
            pc@.len() <= sc@.len(),
            i <= pc@.len(),
            forall|j: int| 0 <= j < i ==> sc@[j] == pc@[j],
        decreases pc@.len() - i,
    {
        if sc[i] != pc[i] {
            assert(s@.take(p@.len() as int)[i as int] != p@[i as int]);
            return false;
        }
        i = i + 1;
    }
    assert(s@.take(p@.len() as int) =~= p@);
    true
}

/// Replaces a leading `~` of the input by `home`, when `home` is known.
pub fn expand_home(input: &str, home: Option<String>) -> (expanded: String)
    ensures
        expanded@ == expanded_input(input@, opt_string_view(home)),
{
    let chars = chars_of(input);
    if chars.len() > 0 && chars[0] == '~' {
        match home {
            Some(h) => {
                let mut out = h;
                let mut i: usize = 1;
                while i < chars.len()
                    invariant
                        chars@ == input@,
                        1 <= i <= chars@.len(),
                        out@ == opt_string_view(home).unwrap() + input@.subrange(1, i as int),
                    decreases chars@.len() - i,
                {
                    push_char(&mut out, chars[i]);
                    proof {
                        assert(input@.subrange(1, i + 1) =~= input@.subrange(1, i as int).push(chars@[i as int]));
                    }
                    i = i + 1;
                }
                assert(input@.subrange(1, i as int) =~= input@.skip(1));
                out
            },
            None => input.to_owned(),
        }
    } else {
        input.to_owned()
    }
}

/// The directory to list and the prefix to complete, for an expanded input.
pub fn listing_target(path: &str) -> (target: (String, String))
    ensures
        target.0@ == listed_dir(path@),
        target.1@ == typed_prefix(path@),
{
    let chars = chars_of(path);
    if chars.len() > 0 && chars[chars.len() - 1] == '/' {
        (path.to_owned(), String::new())
    } else {
        let dir = match path_parent(path) {
            Some(p) => p,
            None => "/".to_owned(),
        };
        let prefix = match path_file_name(path) {
            Some(n) => n,
            None => String::new(),
        };
        (dir, prefix)
    }
}

/// Typing `~` before the rest of a path completes as typing the home
/// directory before it does, unless that text itself begins with `~` (and
/// would be expanded again).
pub proof fn law_tilde_completes_as_home(home: Seq<char>, rest: Seq<char>)
    requires
        !((home + rest).len() > 0 && (home + rest)[0] == '~'),
    ensures
        expanded_input(seq!['~'] + rest, Some(home)) == expanded_input(home + rest, Some(home)),
        listed_dir(expanded_input(seq!['~'] + rest, Some(home))) == listed_dir(expanded_input(home + rest, Some(home))),
        typed_prefix(expanded_input(seq!['~'] + rest, Some(home))) == typed_prefix(expanded_input(home + rest, Some(home))),
{
    assert((seq!['~'] + rest).skip(1) =~= rest);
}

/// The directory to list and the prefix to complete, for the text typed as
/// the scan root: a leading `~` stands for the home directory, which comes
/// from the environment; any other input is listed as it stands.
pub fn suggestion_target(input: &str) -> (target: (String, String))
    ensures
        exists|home: Option<Seq<char>>|
            target.0@ == listed_dir(#[trigger] expanded_input(input@, home))
                && target.1@ == typed_prefix(expanded_input(input@, home)),
        !(input@.len() > 0 && input@[0] == '~') ==> target.0@ == listed_dir(input@) && target.1@
            == typed_prefix(input@),
{
    let home = home_dir_text();
    let ghost h = opt_string_view(home);
    let expanded = expand_home(input, home);
    let target = listing_target(expanded.as_str());
    assert(target.0@ == listed_dir(expanded_input(input@, h)));
    target
}

/// An entry of the listed directory, as far as completion looks at it.
pub struct DirEntryInfo {
    pub name: String,
    pub is_dir: bool,
}

/// Whether an entry is offered: a directory, not hidden, whose name begins
/// with the typed prefix.
pub open spec fn is_offered(e: DirEntryInfo, prefix: Seq<char>) -> bool {
    &&& e.is_dir
    &&& !(e.name@.len() > 0 && e.name@[0] == '.')
    &&& starts_with(e.name@, prefix)
}

/// The text offered for an entry: its path in the listed directory, with a
/// trailing slash.
pub open spec fn offer_text(dir: Seq<char>, e: DirEntryInfo) -> Seq<char> {
    path_join_of(dir, e.name@).push('/')
}

/// The texts offered for the entries of the listed directory, in entry
/// order.
pub open spec fn offers(dir: Seq<char>, prefix: Seq<char>, entries: Seq<DirEntryInfo>) -> Seq<Seq<char>>
    decreases entries.len(),
{
    if entries.len() == 0 {
        Seq::empty()
    } else {
        let rest = offers(dir, prefix, entries.drop_last());
        if is_offered(entries.last(), prefix) {
            rest.push(offer_text(dir, entries.last()))
        } else {
            rest
        }
    }
}

/// Every text offered for completion ends with a slash, and there are never
/// more offers than entries.
pub proof fn law_offers_end_with_slash(dir: Seq<char>, prefix: Seq<char>, entries: Seq<DirEntryInfo>)
    ensures
        offers(dir, prefix, entries).len() <= entries.len(),
        forall|i: int| 0 <= i < offers(dir, prefix, entries).len() ==> ends_with_slash(
            #[trigger] offers(dir, prefix, entries)[i],
        ),
    decreases entries.len(),
{
    if entries.len() > 0 {
        law_offers_end_with_slash(dir, prefix, entries.drop_last());
        let rest = offers(dir, prefix, entries.drop_last());
        if is_offered(entries.last(), prefix) {
            assert forall|i: int| 0 <= i < rest.len() + 1 implies ends_with_slash(
                #[trigger] rest.push(offer_text(dir, entries.last()))[i],
            ) by {
                if i < rest.len() {
                    assert(rest.push(offer_text(dir, entries.last()))[i] == rest[i]);
                }
            }
        }
    }
}

/// Whether `list` is the candidate list for the entries of directory `dir`
/// and the typed `prefix`: the offered texts, each as often as it is
/// offered, in lexicographic order.
pub open spec fn is_candidate_list(
    list: Seq<Seq<char>>,
    dir: Seq<char>,
    prefix: Seq<char>,
    entries: Seq<DirEntryInfo>,
) -> bool {
    &&& texts_ordered(list)
    &&& forall|t: Seq<char>| #[trigger] list.filter(equal_to(t)) == offers(dir, prefix, entries).filter(equal_to(t))
}

/// The candidate list is determined by the listed directory, the typed
/// prefix and the directory's entries: two lists for the same ones are
/// equal.
pub proof fn law_candidates_are_determined(
    a: Seq<Seq<char>>,
    b: Seq<Seq<char>>,
    dir: Seq<char>,
    prefix: Seq<char>,
    entries: Seq<DirEntryInfo>,
)
    requires
        is_candidate_list(a, dir, prefix, entries),
        is_candidate_list(b, dir, prefix, entries),
    ensures
        a == b,
{
    law_ordered_arrangement_is_unique(a, b);
}

proof fn lemma_offer_comes_from_entry(dir: Seq<char>, prefix: Seq<char>, entries: Seq<DirEntryInfo>, k: int)
    requires
        0 <= k < offers(dir, prefix, entries).len(),
    ensures
        exists|i: int|
            #![trigger entries[i]]
            0 <= i < entries.len() && entries[i].is_dir && !(entries[i].name@.len() > 0
                && entries[i].name@[0] == '.') && prefix.len() <= entries[i].name@.len()
                && entries[i].name@.take(prefix.len() as int) == prefix
                && offers(dir, prefix, entries)[k] == path_join_of(dir, entries[i].name@).push('/'),
    decreases entries.len(),
{
    let rest = offers(dir, prefix, entries.drop_last());
    if k < rest.len() {
        lemma_offer_comes_from_entry(dir, prefix, entries.drop_last(), k);
        let i = choose|i: int|
            #![trigger entries.drop_last()[i]]
            0 <= i < entries.drop_last().len() && entries.drop_last()[i].is_dir && !(
            entries.drop_last()[i].name@.len() > 0 && entries.drop_last()[i].name@[0] == '.')
                && prefix.len() <= entries.drop_last()[i].name@.len()
                && entries.drop_last()[i].name@.take(prefix.len() as int) == prefix && rest[k]
                == path_join_of(dir, entries.drop_last()[i].name@).push('/');
        assert(entries.drop_last()[i] == entries[i]);
    } else {
        let i = entries.len() - 1;
        assert(entries[i] == entries.last());
    }
}

proof fn lemma_entry_is_offered(dir: Seq<char>, prefix: Seq<char>, entries: Seq<DirEntryInfo>, i: int)
    requires
        0 <= i < entries.len(),
        entries[i].is_dir,
        !(entries[i].name@.len() > 0 && entries[i].name@[0] == '.'),
        prefix.len() <= entries[i].name@.len(),
        entries[i].name@.take(prefix.len() as int) == prefix,
    ensures
        offers(dir, prefix, entries).contains(path_join_of(dir, entries[i].name@).push('/')),
    decreases entries.len(),
{
    let rest = offers(dir, prefix, entries.drop_last());
    if i < entries.len() - 1 {
        assert(entries.drop_last()[i] == entries[i]);
        lemma_entry_is_offered(dir, prefix, entries.drop_last(), i);
        let m = choose|m: int| 0 <= m < rest.len() && rest[m] == path_join_of(dir, entries[i].name@).push('/');
        if is_offered(entries.last(), prefix) {
            assert(offers(dir, prefix, entries)[m] == rest[m]);
        }
    } else {
        assert(entries.last() == entries[i]);
        assert(is_offered(entries.last(), prefix));
        assert(offers(dir, prefix, entries)[rest.len() as int] == offer_text(dir, entries.last()));
    }
}

/// Whether an entry is a directory, not hidden (its name does not begin with
/// `.`), whose name begins with `prefix`.
pub open spec fn is_visible_subdirectory_matching(e: DirEntryInfo, prefix: Seq<char>) -> bool {
    &&& e.is_dir
    &&& !(e.name@.len() > 0 && e.name@[0] == '.')
    &&& prefix.len() <= e.name@.len()
    &&& e.name@.take(prefix.len() as int) == prefix
}

/// Whether `text` is the path, with a trailing slash, of an entry of `dir`
/// that is a visible subdirectory whose name begins with `prefix`.
pub open spec fn names_visible_subdirectory(
    text: Seq<char>,
    dir: Seq<char>,
    prefix: Seq<char>,
    entries: Seq<DirEntryInfo>,
) -> bool {
    exists|i: int|
        #![trigger entries[i]]
        0 <= i < entries.len() && is_visible_subdirectory_matching(entries[i], prefix) && text
            == path_join_of(dir, entries[i].name@).push('/')
}

/// The candidates are exactly the visible subdirectories whose names begin
/// with the typed prefix: every candidate is the path, with a trailing
/// slash, of an entry that is a directory, whose name does not begin with
/// `.`, and whose name begins with the prefix; and every such entry is among
/// the candidates.
pub proof fn law_candidates_are_visible_matching_subdirectories(
    list: Seq<Seq<char>>,
    dir: Seq<char>,
    prefix: Seq<char>,
    entries: Seq<DirEntryInfo>,
)
    requires
        is_candidate_list(list, dir, prefix, entries),
    ensures
        forall|k: int|
            0 <= k < list.len() ==> names_visible_subdirectory(#[trigger] list[k], dir, prefix, entries),
        forall|i: int|
            #![trigger entries[i]]
            0 <= i < entries.len() && is_visible_subdirectory_matching(entries[i], prefix)
                ==> list.contains(path_join_of(dir, entries[i].name@).push('/')),
{
    let all = offers(dir, prefix, entries);
    assert forall|k: int| 0 <= k < list.len() implies names_visible_subdirectory(
        #[trigger] list[k],
        dir,
        prefix,
        entries,
    ) by {
        let t = list[k];
        list.lemma_filter_contains(equal_to(t), k);
        assert(list.filter(equal_to(t)) == all.filter(equal_to(t)));
        lemma_filter_element_occurs(all, equal_to(t), t);
        let m = choose|m: int| 0 <= m < all.len() && all[m] == t;
        lemma_offer_comes_from_entry(dir, prefix, entries, m);
        let i = choose|i: int|
            #![trigger entries[i]]
            0 <= i < entries.len() && entries[i].is_dir && !(entries[i].name@.len() > 0
                && entries[i].name@[0] == '.') && prefix.len() <= entries[i].name@.len()
                && entries[i].name@.take(prefix.len() as int) == prefix
                && all[m] == path_join_of(dir, entries[i].name@).push('/');
        assert(is_visible_subdirectory_matching(entries[i], prefix));
    }
    assert forall|i: int|
        #![trigger entries[i]]
        0 <= i < entries.len() && is_visible_subdirectory_matching(entries[i], prefix)
        implies list.contains(path_join_of(dir, entries[i].name@).push('/')) by {
        let t = path_join_of(dir, entries[i].name@).push('/');
        lemma_entry_is_offered(dir, prefix, entries, i);
        let m = choose|m: int| 0 <= m < all.len() && all[m] == t;
        all.lemma_filter_contains(equal_to(t), m);
        assert(list.filter(equal_to(t)) == all.filter(equal_to(t)));
        lemma_filter_element_occurs(list, equal_to(t), t);
    }
}

/// With the same home directory and the same entries in the listed
/// directory, typing `~` before the rest of a path gives the same candidate
/// list as typing the home directory before it, unless that text itself
/// begins with `~` (and would be expanded again).
pub proof fn law_tilde_gives_same_candidates(
    home: Seq<char>,
    rest: Seq<char>,
    entries: Seq<DirEntryInfo>,
    with_tilde: Seq<Seq<char>>,
    with_home: Seq<Seq<char>>,
)
    requires
        !((home + rest).len() > 0 && (home + rest)[0] == '~'),
        is_candidate_list(
            with_tilde,
            listed_dir(expanded_input(seq!['~'] + rest, Some(home))),
            typed_prefix(expanded_input(seq!['~'] + rest, Some(home))),
            entries,
        ),
        is_candidate_list(
            with_home,
            listed_dir(expanded_input(home + rest, Some(home))),
            typed_prefix(expanded_input(home + rest, Some(home))),
            entries,
        ),
    ensures
        with_tilde == with_home,
{
    law_tilde_completes_as_home(home, rest);
    law_ordered_arrangement_is_unique(with_tilde, with_home);
}

/// The completion candidates among the entries of the directory `dir`: the
/// offered entries' texts, ordered lexicographically; when no text is
/// offered twice (as for distinct entry names) they strictly increase.
pub fn suggestions_from_entries(dir: &str, prefix: &str, entries: Vec<DirEntryInfo>) -> (suggestions: Vec<String>)
    ensures
        is_candidate_list(strings_view(suggestions@), dir@, prefix@, entries@),
        offers(dir@, prefix@, entries@).no_duplicates() ==> texts_increasing(strings_view(suggestions@)),
        forall|k: int|
            0 <= k < suggestions@.len() ==> names_visible_subdirectory(
                #[trigger] strings_view(suggestions@)[k],
                dir@,
                prefix@,
                entries@,
            ),
{
    let mut found: Vec<String> = Vec::new();
    let mut i: usize = 0;
    while i < entries.len()
        invariant
            i <= entries@.len(),
            strings_view(found@) == offers(dir@, prefix@, entries@.take(i as int)),
        decreases entries@.len() - i,
    {
        let e = &entries[i];
        proof {
            assert(entries@.take(i + 1).drop_last() =~= entries@.take(i as int));
        }
        let name = chars_of(e.name.as_str());
        let hidden = name.len() > 0 && name[0] == '.';
        if e.is_dir && !hidden && text_starts_with(e.name.as_str(), prefix) {
            let mut text = path_join(dir, e.name.as_str());
            push_char(&mut text, '/');
            found.push(text);
            assert(strings_view(found@) =~= offers(dir@, prefix@, entries@.take(i as int)).push(
                offer_text(dir@, entries@[i as int]),
            ));
        }
        i = i + 1;
    }
    assert(entries@.take(i as int) =~= entries@);
    let suggestions = sort_texts(found);
    proof {
        law_candidates_are_visible_matching_subdirectories(
            strings_view(suggestions@),
            dir@,
            prefix@,
            entries@,
        );
    }
    suggestions
}

/// The label of a candidate in the list of candidates: its last component
/// with a trailing slash, or the whole text when it has no last component.
pub open spec fn candidate_label(s: Seq<char>) -> Seq<char> {
    match file_name_of(s) {
        Some(n) => n.push('/'),
        None => s,
    }
}

/// The label of a candidate in the list of candidates.
pub fn suggestion_label(s: &str) -> (label: String)
    ensures
        label@ == candidate_label(s@),
{
    match path_file_name(s) {
        Some(n) => {
            let mut label = n;
            push_char(&mut label, '/');
            label
        },
        None => s.to_owned(),
    }
}

} // verus!
