//! Finding the desktop entry of a window from its class, with the command line of its
//! process as a fallback.

use crate::desktop::{
    all_entries, comes_from, entry_views, law_entries_come_from_files, law_files_have_entries,
    DesktopEntry, DesktopFile, EntryView,
};
use crate::text::{
    after_last, chars_of, concat2, ends_with, from_utf8_lossy, is_letter_or_digit,
    letter_or_digit, lowercase, same, starts_with, text_after_last, texts, to_lowercase, utf8_lossy,
};
use vstd::prelude::*;
use vstd::string::*;

verus! {

/// The leading letters and digits of a text.
pub open spec fn leading_alphanumeric(s: Seq<char>) -> Seq<char>
    decreases s.len(),
{
    if s.len() == 0 || !letter_or_digit(s[0]) {
        Seq::empty()
    } else {
        seq![s[0]] + leading_alphanumeric(s.drop_first())
    }
}

/// The leading characters of a text whose flags are set.
pub open spec fn flagged(s: Seq<char>, flags: Seq<bool>) -> Seq<char>
    decreases s.len(),
{
    if s.len() == 0 || flags.len() == 0 || !flags[0] {
        Seq::empty()
    } else {
        seq![s[0]] + flagged(s.drop_first(), flags.drop_first())
    }
}

proof fn lemma_flagged_is(s: Seq<char>, flags: Seq<bool>, k: int)
    requires
        0 <= k <= s.len(),
        k <= flags.len(),
        forall|j: int| 0 <= j < k ==> #[trigger] flags[j],
        k < s.len() && k < flags.len() ==> !flags[k],
    ensures
        flagged(s, flags) == s.take(k),
    decreases s.len(),
{
    if k > 0 {
        assert(flags[0]);
        assert forall|j: int| 0 <= j < k - 1 implies #[trigger] flags.drop_first()[j] by {
            assert(flags[j + 1]);
        }
        lemma_flagged_is(s.drop_first(), flags.drop_first(), k - 1);
        assert(s.take(k) == seq![s[0]] + s.drop_first().take(k - 1));
    } else {
        assert(s.take(k) == Seq::<char>::empty());
    }
}

/// The substring of `s` up to, and without, the first character whose flag is not set.
pub fn flagged_prefix<'a>(s: &'a str, flags: &Vec<bool>) -> (r: &'a str)
    ensures
        r@ == flagged(s@, flags@),
{
    let n: usize = s.unicode_len();
    let mut k: usize = 0;
    while k < n && k < flags.len() && flags[k]
        invariant
            n == s@.len(),
            k <= n,
            k <= flags@.len(),
            forall|j: int| 0 <= j < k ==> #[trigger] flags@[j],
        decreases n - k,
    {
        k = k + 1;
    }
    proof {
        lemma_flagged_is(s@, flags@, k as int);
    }
    s.substring_char(0, k)
}

/// Which characters of a text are letters or digits.
pub open spec fn letter_flags(s: Seq<char>) -> Seq<bool> {
    Seq::new(s.len(), |i: int| letter_or_digit(s[i]))
}

proof fn lemma_leading_is_flagged(s: Seq<char>)
    ensures
        flagged(s, letter_flags(s)) == leading_alphanumeric(s),
    decreases s.len(),
{
    if s.len() > 0 {
        lemma_leading_is_flagged(s.drop_first());
        assert(letter_flags(s).drop_first() == letter_flags(s.drop_first()));
    }
}

/// The substring of `s` up to, and without, the first character that is no letter or digit.
pub fn alnum_prefix(s: &str) -> (r: &str)
    ensures
        r@ == leading_alphanumeric(s@),
{
    let chars = chars_of(s);
    let mut flags: Vec<bool> = Vec::new();
    let mut i: usize = 0;
    while i < chars.len()
        invariant
            chars@ == s@,
            i <= chars@.len(),
            flags@ == letter_flags(s@).take(i as int),
        decreases chars@.len() - i,
    {
        flags.push(is_letter_or_digit(chars[i]));
        assert(flags@ == letter_flags(s@).take(i + 1));
        i = i + 1;
    }
    proof {
        assert(flags@ == letter_flags(s@));
        lemma_leading_is_flagged(s@);
    }
    flagged_prefix(s, &flags)
}

/// How the key of an entry is held against a query.
pub enum KeyMatch {
    /// The key is the query.
    Exact,
    /// The key begins with the query.
    Prefix,
    /// The key ends with a dot and the query.
    DottedSuffix,
}

/// The key answers the query.
pub open spec fn key_matches(how: KeyMatch, key: Seq<char>, query: Seq<char>) -> bool {
    match how {
        KeyMatch::Exact => key == query,
        KeyMatch::Prefix => query.is_prefix_of(key),
        KeyMatch::DottedSuffix => ("."@ + query).is_suffix_of(key),
    }
}

/// The name and the icon of the first entry that has an icon and whose key answers the query.
pub open spec fn first_match(
    entries: Seq<EntryView>,
    how: KeyMatch,
    query: Seq<char>,
) -> Option<(Seq<char>, Seq<char>)>
    decreases entries.len(),
{
    if entries.len() == 0 {
        None
    } else if key_matches(how, entries[0].key, query) && entries[0].icon.len() > 0 {
        Some((entries[0].name, entries[0].icon))
    } else {
        first_match(entries.drop_first(), how, query)
    }
}

/// The texts of an optional pair of strings.
pub open spec fn pair_view(r: Option<(String, String)>) -> Option<(Seq<char>, Seq<char>)> {
    match r {
        Some((a, b)) => Some((a@, b@)),
        None => None,
    }
}

/// The name and the icon of the first entry that has an icon and whose key answers the query.
pub fn find_entry(entries: &Vec<DesktopEntry>, how: &KeyMatch, query: &str) -> (r: Option<
    (String, String),
>)
    ensures
        pair_view(r) == first_match(entry_views(entries@), *how, query@),
{
    let ghost all = entry_views(entries@);
    let dotted = concat2(".", query);
    let mut i: usize = 0;
    assert(all.skip(0) == all);
    while i < entries.len()
        invariant
            all == entry_views(entries@),
            dotted@ == "."@ + query@,
            i <= entries@.len(),
            first_match(all, *how, query@) == first_match(all.skip(i as int), *how, query@),
        decreases entries@.len() - i,
    {
        let e = &entries[i];
        let ghost rest = all.skip(i as int);
        assert(rest[0] == e@);
        let hit: bool = match how {
            KeyMatch::Exact => same(e.key.as_str(), query),
            KeyMatch::Prefix => starts_with(e.key.as_str(), query),
            KeyMatch::DottedSuffix => ends_with(e.key.as_str(), dotted.as_str()),
        };
        if hit && !e.icon.as_str().is_empty() {
            return Some((e.name.clone(), e.icon.clone()));
        }
        assert(rest.drop_first() == all.skip(i + 1));
        i = i + 1;
    }
    assert(all.skip(i as int).len() == 0);
    None
}

/// The entry found for a word of the command line: by the word itself; else, where the
/// word begins with letters or digits, by these as a prefix, then as a dotted suffix.
pub open spec fn word_match(entries: Seq<EntryView>, word: Seq<char>) -> Option<
    (Seq<char>, Seq<char>),
> {
    let lead = leading_alphanumeric(word);
    let exact = first_match(entries, KeyMatch::Exact, word);
    let prefixed = first_match(entries, KeyMatch::Prefix, lead);
    if exact is Some {
        exact
    } else if lead.len() == 0 {
        None
    } else if prefixed is Some {
        prefixed
    } else {
        first_match(entries, KeyMatch::DottedSuffix, lead)
    }
}

/// The entry found for the first word that one is found for.
pub open spec fn words_match(entries: Seq<EntryView>, words: Seq<Seq<char>>) -> Option<
    (Seq<char>, Seq<char>),
>
    decreases words.len(),
{
    if words.len() == 0 {
        None
    } else if word_match(entries, words[0]) is Some {
        word_match(entries, words[0])
    } else {
        words_match(entries, words.drop_first())
    }
}

/// The entry found for a window: by its class; else, where the class begins with letters
/// or digits, by these as a prefix; else by the words of its command line.
pub open spec fn window_match(
    entries: Seq<EntryView>,
    class: Seq<char>,
    words: Seq<Seq<char>>,
) -> Option<(Seq<char>, Seq<char>)> {
    let lead = leading_alphanumeric(class);
    let exact = first_match(entries, KeyMatch::Exact, class);
    let prefixed = first_match(entries, KeyMatch::Prefix, lead);
    if exact is Some {
        exact
    } else if lead.len() > 0 && prefixed is Some {
        prefixed
    } else {
        words_match(entries, words)
    }
}

/// The name and the icon found for a word of the command line.
pub fn resolve_word(entries: &Vec<DesktopEntry>, word: &str) -> (r: Option<(String, String)>)
    ensures
        pair_view(r) == word_match(entry_views(entries@), word@),
{
    let exact = find_entry(entries, &KeyMatch::Exact, word);
    if exact.is_some() {
        return exact;
    }
    let lead = alnum_prefix(word);
    if lead.is_empty() {
        return None;
    }
    let prefixed = find_entry(entries, &KeyMatch::Prefix, lead);
    if prefixed.is_some() {
        return prefixed;
    }
    find_entry(entries, &KeyMatch::DottedSuffix, lead)
}

/// The name and the icon found for a window of this class, in lowercase, and for these words
/// of its command line.
pub fn resolve_key(entries: &Vec<DesktopEntry>, class: &str, words: &Vec<String>) -> (r: Option<
    (String, String),
>)
    ensures
        pair_view(r) == window_match(entry_views(entries@), class@, texts(words@)),
{
    let exact = find_entry(entries, &KeyMatch::Exact, class);
    if exact.is_some() {
        return exact;
    }
    let lead = alnum_prefix(class);
    if !lead.is_empty() {
        let prefixed = find_entry(entries, &KeyMatch::Prefix, lead);
        if prefixed.is_some() {
            return prefixed;
        }
    }
    let ghost all = texts(words@);
    let ghost es = entry_views(entries@);
    let mut i: usize = 0;
    assert(all.skip(0) == all);
    while i < words.len()
        invariant
            all == texts(words@),
            es == entry_views(entries@),
            i <= words@.len(),
            window_match(es, class@, all) == words_match(es, all.skip(i as int)),
        decreases words@.len() - i,
    {
        let ghost rest = all.skip(i as int);
        assert(rest[0] == words@[i as int]@);
        let found = resolve_word(entries, words[i].as_str());
        if found.is_some() {
            return found;
        }
        assert(rest.drop_first() == all.skip(i + 1));
        i = i + 1;
    }
    assert(all.skip(i as int).len() == 0);
    None
}

/// The arguments of a raw command line: a zero byte ends one and begins the next.
pub open spec fn arguments(raw: Seq<u8>) -> Seq<Seq<u8>>
    decreases raw.len(),
{
    if raw.len() == 0 {
        seq![Seq::empty()]
    } else {
        let before = arguments(raw.drop_last());
        if raw.last() == 0 {
            before.push(Seq::empty())
        } else {
            before.drop_last().push(before.last().push(raw.last()))
        }
    }
}

/// A word that says nothing of the application: it is empty or names an interpreter,
/// a runtime or a shell.
pub open spec fn uninformative(word: Seq<char>) -> bool {
    ||| word.len() == 0
    ||| "python"@.is_prefix_of(word)
    ||| "electron"@.is_prefix_of(word)
    ||| word == "java"@
    ||| word == "node"@
    ||| word == "sh"@
    ||| word == "bash"@
    ||| word == "dash"@
    ||| word == "env"@
    ||| word == "perl"@
    ||| word == "ruby"@
}

/// Whether a word is empty or names an interpreter, a runtime or a shell.
pub fn is_uninformative(word: &str) -> (r: bool)
    ensures
        r == uninformative(word@),
{
    word.is_empty() || starts_with(word, "python") || starts_with(word, "electron") || same(
        word,
        "java",
    ) || same(word, "node") || same(word, "sh") || same(word, "bash") || same(word, "dash") || same(
        word,
        "env",
    ) || same(word, "perl") || same(word, "ruby")
}

/// The file name that an argument ends with. An option has none.
pub open spec fn file_name(argument: Seq<char>) -> Option<Seq<char>> {
    if "-"@.is_prefix_of(argument) {
        None
    } else {
        Some(after_last(argument, '/'))
    }
}

/// The file name that an argument ends with; `None` for an option.
pub fn argument_file_name(argument: &str) -> (r: Option<String>)
    ensures
        match r {
            Some(name) => file_name(argument@) == Some(name@),
            None => file_name(argument@) is None,
        },
{
    if starts_with(argument, "-") {
        None
    } else {
        Some(text_after_last(argument, '/'))
    }
}

/// The text of an argument: UTF-8 as it stands, with replacement characters for what is none.
pub open spec fn argument_text(argument: Seq<u8>) -> Seq<char> {
    if vstd::utf8::valid_utf8(argument) {
        vstd::utf8::decode_utf8(argument)
    } else {
        utf8_lossy(argument)
    }
}

/// The word that an argument is looked up by: its file name in lowercase. Empty arguments,
/// options and uninformative words are left out.
pub open spec fn argument_word(argument: Seq<u8>) -> Option<Seq<char>> {
    if argument.len() == 0 {
        None
    } else {
        match file_name(argument_text(argument)) {
            Some(name) => if uninformative(lowercase(name)) {
                None
            } else {
                Some(lowercase(name))
            },
            None => None,
        }
    }
}

/// The words of several arguments, in order.
pub open spec fn argument_words(arguments: Seq<Seq<u8>>) -> Seq<Seq<char>>
    decreases arguments.len(),
{
    if arguments.len() == 0 {
        Seq::empty()
    } else {
        let before = argument_words(arguments.drop_last());
        match argument_word(arguments.last()) {
            Some(word) => before.push(word),
            None => before,
        }
    }
}

fn push_word(words: &mut Vec<String>, argument: &Vec<u8>)
    ensures
        texts(final(words)@) == match argument_word(argument@) {
            Some(word) => texts(old(words)@).push(word),
            None => texts(old(words)@),
        },
{
    if argument.len() == 0 {
        return ;
    }
    let text = from_utf8_lossy(argument);
    if let Some(name) = argument_file_name(text.as_str()) {
        let word = to_lowercase(name.as_str());
        if !is_uninformative(word.as_str()) {
            words.push(word);
            assert(texts(words@) == texts(old(words)@).push(word@));
        }
    }
}

/// The words that a raw command line is looked up by.
pub fn command_words(raw: &Vec<u8>) -> (r: Vec<String>)
    ensures
        texts(r@) == argument_words(arguments(raw@)),
{
    let mut words: Vec<String> = Vec::new();
    let mut current: Vec<u8> = Vec::new();
    let mut i: usize = 0;
    proof {
        let none = arguments(raw@.take(0));
        assert(none.drop_last() == Seq::<Seq<u8>>::empty());
    }
    while i < raw.len()
        invariant
            i <= raw@.len(),
            arguments(raw@.take(i as int)).len() > 0,
            current@ == arguments(raw@.take(i as int)).last(),
            texts(words@) == argument_words(arguments(raw@.take(i as int)).drop_last()),
        decreases raw@.len() - i,
    {
        let b: u8 = raw[i];
        let ghost before = arguments(raw@.take(i as int));
        let ghost after = arguments(raw@.take(i + 1));
        assert(raw@.take(i + 1).drop_last() == raw@.take(i as int));
        assert(raw@.take(i + 1).last() == b);
        if b == 0 {
            push_word(&mut words, &current);
            current = Vec::new();
            assert(after.drop_last() == before);
            assert(current@ == after.last());
        } else {
            current.push(b);
            assert(after.drop_last() == before.drop_last());
        }
        i = i + 1;
    }
    push_word(&mut words, &current);
    assert(raw@.take(i as int) == raw@);
    words
}

/// The words that a window's process is looked up by: none where there is no process or its
/// command line is not to be had.
pub open spec fn process_words(pid: i32, cmdline: Option<Vec<u8>>) -> Seq<Seq<char>> {
    match cmdline {
        Some(raw) => if pid > 0 {
            argument_words(arguments(raw@))
        } else {
            Seq::empty()
        },
        None => Seq::empty(),
    }
}

/// Finds the name and the icon of a window from its class, with the command line of its
/// process as a fallback; `None` where nothing matches.
pub fn resolve_entry(
    entries: &Vec<DesktopEntry>,
    class: &str,
    pid: i32,
    cmdline: &Option<Vec<u8>>,
) -> (r: Option<(String, String)>)
    ensures
        pair_view(r) == window_match(
            entry_views(entries@),
            lowercase(class@),
            process_words(pid, *cmdline),
        ),
{
    let key = to_lowercase(class);
    let words: Vec<String> = match cmdline {
        Some(raw) => if pid > 0 {
            command_words(raw)
        } else {
            Vec::new()
        },
        None => Vec::new(),
    };
    assert(texts(words@) == process_words(pid, *cmdline));
    resolve_key(entries, key.as_str(), &words)
}

/// The icon of what was found, or the class where nothing was.
pub open spec fn icon_or_class(found: Option<(Seq<char>, Seq<char>)>, class: Seq<char>) -> Seq<
    char,
> {
    match found {
        Some((_, icon)) => icon,
        None => class,
    }
}

/// Finds the icon of a window, which is its class where nothing matches.
pub fn resolve_icon(
    entries: &Vec<DesktopEntry>,
    class: &str,
    pid: i32,
    cmdline: &Option<Vec<u8>>,
) -> (r: String)
    ensures
        r@ == icon_or_class(
            window_match(
                entry_views(entries@),
                lowercase(class@),
                process_words(pid, *cmdline),
            ),
            class@,
        ),
{
    match resolve_entry(entries, class, pid, cmdline) {
        Some((_, icon)) => icon,
        None => class.to_owned(),
    }
}

/// The entry at `i` has an icon and answers the query.
pub open spec fn answers(entries: Seq<EntryView>, i: int, how: KeyMatch, query: Seq<char>) -> bool {
    0 <= i < entries.len() && key_matches(how, entries[i].key, query) && entries[i].icon.len() > 0
}

/// A match is found if and only if some entry answers the query, and it is then the first
/// entry that does.
pub proof fn law_first_match(entries: Seq<EntryView>, how: KeyMatch, query: Seq<char>)
    ensures
        first_match(entries, how, query) is Some <==> exists|i: int| answers(entries, i, how, query),
        forall|i: int| #[trigger]
            answers(entries, i, how, query) && (forall|j: int|
                0 <= j < i ==> !answers(entries, j, how, query)) ==> first_match(entries, how, query)
                == Some((entries[i].name, entries[i].icon)),
        first_match(entries, how, query) matches Some((name, icon)) ==> icon.len() > 0 && (exists|
            i: int,
        | #[trigger]
            answers(entries, i, how, query) && entries[i].name == name && entries[i].icon == icon),
    decreases entries.len(),
{
    if entries.len() > 0 {
        let rest = entries.drop_first();
        law_first_match(rest, how, query);
        assert forall|i: int| 1 <= i < entries.len() implies answers(rest, i - 1, how, query)
            == #[trigger] answers(entries, i, how, query) by {
            assert(rest[i - 1] == entries[i]);
        }
        assert forall|k: int| #[trigger] answers(rest, k, how, query) implies answers(
            entries,
            k + 1,
            how,
            query,
        ) by {
            assert(rest[k] == entries[k + 1]);
        }
        if answers(entries, 0, how, query) {
            assert(first_match(entries, how, query) == Some((entries[0].name, entries[0].icon)));
        } else {
            assert(first_match(entries, how, query) == first_match(rest, how, query));
            assert forall|i: int| #[trigger]
                answers(entries, i, how, query) && (forall|j: int|
                    0 <= j < i ==> !answers(entries, j, how, query)) implies first_match(
                entries,
                how,
                query,
            ) == Some((entries[i].name, entries[i].icon)) by {
                assert(answers(rest, i - 1, how, query));
                assert forall|j: int| 0 <= j < i - 1 implies !answers(rest, j, how, query) by {
                    assert(!answers(entries, j + 1, how, query));
                }
            }
        }
    }
}

/// What is found for a window is the name and the icon of one of the entries, and the icon
/// is not empty.
pub proof fn law_found_is_an_entry(
    entries: Seq<EntryView>,
    class: Seq<char>,
    words: Seq<Seq<char>>,
)
    ensures
        window_match(entries, class, words) matches Some((name, icon)) ==> icon.len() > 0 && (
        exists|i: int|
            0 <= i < entries.len() && (#[trigger] entries[i]).name == name && entries[i].icon
                == icon),
    decreases words.len(),
{
    let lead = leading_alphanumeric(class);
    law_first_match(entries, KeyMatch::Exact, class);
    law_first_match(entries, KeyMatch::Prefix, lead);
    lemma_words_found(entries, words);
}

proof fn lemma_words_found(entries: Seq<EntryView>, words: Seq<Seq<char>>)
    ensures
        words_match(entries, words) matches Some((name, icon)) ==> icon.len() > 0 && (exists|
            i: int,
        |
            0 <= i < entries.len() && (#[trigger] entries[i]).name == name && entries[i].icon
                == icon),
    decreases words.len(),
{
    if words.len() > 0 {
        let lead = leading_alphanumeric(words[0]);
        law_first_match(entries, KeyMatch::Exact, words[0]);
        law_first_match(entries, KeyMatch::Prefix, lead);
        law_first_match(entries, KeyMatch::DottedSuffix, lead);
        lemma_words_found(entries, words.drop_first());
    }
}

/// An entry with an icon whose key is the class wins over every other way to find one.
pub proof fn law_exact_class_wins(
    entries: Seq<EntryView>,
    class: Seq<char>,
    words: Seq<Seq<char>>,
    i: int,
)
    requires
        answers(entries, i, KeyMatch::Exact, class),
    ensures
        window_match(entries, class, words) is Some,
        window_match(entries, class, words) == first_match(entries, KeyMatch::Exact, class),
{
    law_first_match(entries, KeyMatch::Exact, class);
}

/// The command line is a fallback: where the class alone finds an entry, no command line
/// changes what is found.
pub proof fn law_command_line_is_a_fallback(
    entries: Seq<EntryView>,
    class: Seq<char>,
    words: Seq<Seq<char>>,
)
    requires
        window_match(entries, class, Seq::empty()) is Some,
    ensures
        window_match(entries, class, words) == window_match(entries, class, Seq::empty()),
{
}

proof fn lemma_listed_entry(files: Seq<DesktopFile>, entries: Seq<EntryView>, e: EntryView)
    requires
        entries.to_multiset() == all_entries(files).to_multiset(),
    ensures
        entries.contains(e) <==> all_entries(files).contains(e),
{
    broadcast use vstd::seq_lib::group_to_multiset_ensures;

    assert(entries.contains(e) <==> entries.to_multiset().count(e) > 0);
    assert(all_entries(files).contains(e) <==> all_entries(files).to_multiset().count(e) > 0);
}

/// Icons are real: what is found for a window is the name and the icon that one of the
/// `.desktop` files gives, and the icon is not empty.
pub proof fn law_found_is_installed(
    files: Seq<DesktopFile>,
    entries: Seq<EntryView>,
    class: Seq<char>,
    words: Seq<Seq<char>>,
)
    requires
        entries.to_multiset() == all_entries(files).to_multiset(),
    ensures
        window_match(entries, class, words) matches Some((name, icon)) ==> icon.len() > 0 && (
        exists|j: int, key: Seq<char>|
            0 <= j < files.len() && #[trigger] comes_from(EntryView { key, name, icon }, files[j])),
{
    law_found_is_an_entry(entries, class, words);
    if let Some((name, icon)) = window_match(entries, class, words) {
        let i = choose|i: int|
            0 <= i < entries.len() && (#[trigger] entries[i]).name == name && entries[i].icon
                == icon;
        let e = entries[i];
        assert(entries.contains(e));
        lemma_listed_entry(files, entries, e);
        law_entries_come_from_files(files, e);
        let j = choose|j: int| 0 <= j < files.len() && comes_from(e, #[trigger] files[j]);
        assert(comes_from(EntryView { key: e.key, name, icon }, files[j]));
    }
}

/// An installed application is found: a window whose class, in lowercase, is a key of a
/// `.desktop` file with a name and an icon gets the name and the icon of a file with that key,
/// whatever its command line is.
pub proof fn law_installed_is_found(
    files: Seq<DesktopFile>,
    entries: Seq<EntryView>,
    i: int,
    e: EntryView,
    words: Seq<Seq<char>>,
)
    requires
        entries.to_multiset() == all_entries(files).to_multiset(),
        0 <= i < files.len(),
        comes_from(e, files[i]),
        e.icon.len() > 0,
    ensures
        window_match(entries, e.key, words) matches Some((name, icon)) && icon.len() > 0 && (exists|
            j: int,
        |
            0 <= j < files.len() && comes_from(
                EntryView { key: e.key, name, icon },
                #[trigger] files[j],
            )),
{
    law_files_have_entries(files, i);
    assert(all_entries(files).contains(e));
    lemma_listed_entry(files, entries, e);
    let k = choose|k: int| 0 <= k < entries.len() && entries[k] == e;
    assert(answers(entries, k, KeyMatch::Exact, e.key));
    law_exact_class_wins(entries, e.key, words, k);
    law_first_match(entries, KeyMatch::Exact, e.key);
    if let Some((name, icon)) = first_match(entries, KeyMatch::Exact, e.key) {
        let m = choose|m: int| #[trigger]
            answers(entries, m, KeyMatch::Exact, e.key) && entries[m].name == name
                && entries[m].icon == icon;
        let found = entries[m];
        assert(entries.contains(found));
        lemma_listed_entry(files, entries, found);
        law_entries_come_from_files(files, found);
        assert(found == EntryView { key: e.key, name, icon });
    }
}

/// An interpreter, a runtime or a shell in the command line is never looked up.
pub proof fn law_interpreters_are_skipped(arguments: Seq<Seq<u8>>)
    ensures
        forall|i: int|
            0 <= i < argument_words(arguments).len() ==> !uninformative(
                #[trigger] argument_words(arguments)[i],
            ),
    decreases arguments.len(),
{
    if arguments.len() > 0 {
        let before = argument_words(arguments.drop_last());
        law_interpreters_are_skipped(arguments.drop_last());
        assert forall|i: int| 0 <= i < argument_words(arguments).len() implies !uninformative(
            #[trigger] argument_words(arguments)[i],
        ) by {
            if i < before.len() {
                assert(argument_words(arguments)[i] == before[i]);
            }
        }
    }
}

/// The icon found for a window is empty only where its class is.
pub proof fn law_icon_is_never_lost(
    entries: Seq<EntryView>,
    class: Seq<char>,
    key: Seq<char>,
    words: Seq<Seq<char>>,
)
    requires
        class.len() > 0,
    ensures
        icon_or_class(window_match(entries, key, words), class).len() > 0,
{
    law_found_is_an_entry(entries, key, words);
}

/// What leads a text is the longest prefix of it that holds letters and digits only.
pub proof fn law_leading_is_longest(s: Seq<char>)
    ensures
        leading_alphanumeric(s).is_prefix_of(s),
        forall|i: int|
            0 <= i < leading_alphanumeric(s).len() ==> letter_or_digit(
                #[trigger] leading_alphanumeric(s)[i],
            ),
        leading_alphanumeric(s).len() < s.len() ==> !letter_or_digit(
            s[leading_alphanumeric(s).len() as int],
        ),
    decreases s.len(),
{
    let lead = leading_alphanumeric(s);
    if s.len() > 0 && letter_or_digit(s[0]) {
        let rest = s.drop_first();
        law_leading_is_longest(rest);
        let tail = leading_alphanumeric(rest);
        assert(lead == seq![s[0]] + tail);
        assert forall|i: int| 0 <= i < lead.len() implies lead[i] == s[i] by {
            if i > 0 {
                assert(tail[i - 1] == rest.subrange(0, tail.len() as int)[i - 1]);
            }
        }
        assert(lead == s.subrange(0, lead.len() as int));
        assert forall|i: int| 0 <= i < lead.len() implies letter_or_digit(#[trigger] lead[i]) by {
            if i > 0 {
                assert(lead[i] == tail[i - 1]);
            }
        }
        if lead.len() < s.len() {
            assert(s[lead.len() as int] == rest[tail.len() as int]);
        }
    } else {
        assert(lead == s.subrange(0, 0));
    }
}

/// Some entry with an icon answers the query.
pub open spec fn answered(entries: Seq<EntryView>, how: KeyMatch, query: Seq<char>) -> bool {
    exists|i: int| answers(entries, i, how, query)
}

/// Some entry is found for a word of the command line.
pub open spec fn word_answered(entries: Seq<EntryView>, word: Seq<char>) -> bool {
    let lead = leading_alphanumeric(word);
    answered(entries, KeyMatch::Exact, word) || (lead.len() > 0 && (answered(
        entries,
        KeyMatch::Prefix,
        lead,
    ) || answered(entries, KeyMatch::DottedSuffix, lead)))
}

proof fn lemma_words_answered(entries: Seq<EntryView>, words: Seq<Seq<char>>)
    ensures
        words_match(entries, words) is Some <==> exists|k: int|
            0 <= k < words.len() && word_answered(entries, #[trigger] words[k]),
    decreases words.len(),
{
    if words.len() > 0 {
        let rest = words.drop_first();
        let lead = leading_alphanumeric(words[0]);
        law_first_match(entries, KeyMatch::Exact, words[0]);
        law_first_match(entries, KeyMatch::Prefix, lead);
        law_first_match(entries, KeyMatch::DottedSuffix, lead);
        lemma_words_answered(entries, rest);
        assert(word_match(entries, words[0]) is Some <==> word_answered(entries, words[0]));
        if words_match(entries, rest) is Some {
            let k = choose|k: int| 0 <= k < rest.len() && word_answered(entries, #[trigger] rest[k]);
            assert(words[k + 1] == rest[k]);
        }
        if exists|k: int| 0 <= k < words.len() && word_answered(entries, #[trigger] words[k]) {
            let k = choose|k: int|
                0 <= k < words.len() && word_answered(entries, #[trigger] words[k]);
            if k > 0 {
                assert(rest[k - 1] == words[k]);
            }
        }
    }
}

/// Nothing is found for a window if and only if no entry with an icon has its class for a key,
/// none begins with the letters and digits that lead the class, and none is found for a word
/// of its command line.
pub proof fn law_when_nothing_is_found(
    entries: Seq<EntryView>,
    class: Seq<char>,
    words: Seq<Seq<char>>,
)
    ensures
        window_match(entries, class, words) is None <==> {
            &&& !answered(entries, KeyMatch::Exact, class)
            &&& leading_alphanumeric(class).len() > 0 ==> !answered(
                entries,
                KeyMatch::Prefix,
                leading_alphanumeric(class),
            )
            &&& forall|k: int|
                0 <= k < words.len() ==> !word_answered(entries, #[trigger] words[k])
        },
{
    law_first_match(entries, KeyMatch::Exact, class);
    law_first_match(entries, KeyMatch::Prefix, leading_alphanumeric(class));
    lemma_words_answered(entries, words);
}

/// Arguments with a zero byte between each and the next.
pub open spec fn rejoined(arguments: Seq<Seq<u8>>) -> Seq<u8>
    decreases arguments.len(),
{
    if arguments.len() == 0 {
        Seq::empty()
    } else if arguments.len() == 1 {
        arguments[0]
    } else {
        rejoined(arguments.drop_last()) + seq![0u8] + arguments.last()
    }
}

/// A command line is split without loss: its arguments hold no zero byte, and with zero bytes
/// between them they are the command line again.
pub proof fn law_arguments_rejoin(raw: Seq<u8>)
    ensures
        arguments(raw).len() > 0,
        rejoined(arguments(raw)) == raw,
        forall|i: int| 0 <= i < arguments(raw).len() ==> !(#[trigger] arguments(raw)[i]).contains(0),
    decreases raw.len(),
{
    if raw.len() > 0 {
        let b = raw.last();
        let before = arguments(raw.drop_last());
        law_arguments_rejoin(raw.drop_last());
        let after = arguments(raw);
        assert(raw == raw.drop_last().push(b));
        if b == 0 {
            assert(after.drop_last() == before);
            assert(rejoined(after) == raw);
        } else {
            let grown = before.last().push(b);
            assert(after.drop_last() == before.drop_last());
            assert(after.last() == grown);
            if before.len() == 1 {
                assert(rejoined(before) == before[0]);
                assert(rejoined(after) == grown);
            } else {
                assert(rejoined(after) == rejoined(before.drop_last()) + seq![0u8] + grown);
            }
            assert(rejoined(after) == raw);
            assert forall|i: int| 0 <= i < after.len() implies !(#[trigger] after[i]).contains(
                0,
            ) by {
                if i < before.len() - 1 {
                    assert(after[i] == before[i]);
                } else {
                    assert(!before[before.len() - 1].contains(0));
                    if grown.contains(0) {
                        let k = choose|k: int| 0 <= k < grown.len() && grown[k] == 0;
                        assert(before.last()[k] == 0);
                    }
                }
            }
        }
    }
}

/// Text with its flags set is kept up to a character whose flag is not, and no further.
pub proof fn law_flagged(a: Seq<char>, b: Seq<char>, set: Seq<bool>, more: Seq<bool>)
    requires
        set.len() == a.len(),
        forall|i: int| 0 <= i < set.len() ==> #[trigger] set[i],
        b.len() > 0 && more.len() > 0 ==> !more[0],
    ensures
        flagged(a + b, set + more) == a,
{
    let flags = set + more;
    assert forall|j: int| 0 <= j < a.len() implies #[trigger] flags[j] by {
        assert(set[j]);
    }
    assert(b.len() > 0 && more.len() > 0 ==> flags[a.len() as int] == more[0]);
    lemma_flagged_is(a + b, flags, a.len() as int);
    assert((a + b).take(a.len() as int) == a);
}

/// Letters and digits lead a text up to the first character that is neither.
pub proof fn law_leading_run(lead: Seq<char>, rest: Seq<char>)
    requires
        forall|i: int| 0 <= i < lead.len() ==> letter_or_digit(#[trigger] lead[i]),
        rest.len() > 0 ==> !letter_or_digit(rest[0]),
    ensures
        leading_alphanumeric(lead + rest) == lead,
    decreases lead.len(),
{
    let s = lead + rest;
    if lead.len() > 0 {
        let tail = lead.drop_first();
        assert forall|i: int| 0 <= i < tail.len() implies letter_or_digit(#[trigger] tail[i]) by {
            assert(letter_or_digit(lead[i + 1]));
        }
        law_leading_run(tail, rest);
        assert(letter_or_digit(lead[0]));
        assert(s.drop_first() == tail + rest);
        assert(seq![lead[0]] + tail == lead);
    } else {
        assert(rest.len() > 0 ==> s[0] == rest[0]);
    }
}

/// Looked up by a key, the first entry with an icon and that very key is found; none is found
/// where there is no such entry.
pub proof fn law_lookup_exact(entries: Seq<EntryView>, query: Seq<char>, i: int)
    ensures
        0 <= i < entries.len() && entries[i].key == query && entries[i].icon.len() > 0 && (forall|
            j: int,
        |
            0 <= j < i ==> !((#[trigger] entries[j]).key == query && entries[j].icon.len() > 0))
            ==> first_match(entries, KeyMatch::Exact, query) == Some(
            (entries[i].name, entries[i].icon),
        ),
        (forall|j: int|
            0 <= j < entries.len() ==> !((#[trigger] entries[j]).key == query
                && entries[j].icon.len() > 0)) ==> first_match(
            entries,
            KeyMatch::Exact,
            query,
        ) is None,
{
    let how = KeyMatch::Exact;
    law_first_match(entries, how, query);
    if 0 <= i < entries.len() && entries[i].key == query && entries[i].icon.len() > 0 {
        assert(answers(entries, i, how, query));
    }
}

/// Looked up by a prefix, the first entry with an icon whose key begins with it is found; none
/// is found where there is no such entry.
pub proof fn law_lookup_prefix(entries: Seq<EntryView>, query: Seq<char>, i: int)
    ensures
        0 <= i < entries.len() && query.is_prefix_of(entries[i].key) && entries[i].icon.len() > 0
            && (forall|j: int|
            0 <= j < i ==> !(query.is_prefix_of((#[trigger] entries[j]).key)
                && entries[j].icon.len() > 0)) ==> first_match(entries, KeyMatch::Prefix, query)
            == Some((entries[i].name, entries[i].icon)),
        (forall|j: int|
            0 <= j < entries.len() ==> !(query.is_prefix_of((#[trigger] entries[j]).key)
                && entries[j].icon.len() > 0)) ==> first_match(
            entries,
            KeyMatch::Prefix,
            query,
        ) is None,
{
    let how = KeyMatch::Prefix;
    law_first_match(entries, how, query);
    if 0 <= i < entries.len() && query.is_prefix_of(entries[i].key) && entries[i].icon.len() > 0 {
        assert(answers(entries, i, how, query));
    }
}

/// Looked up by a suffix, the first entry with an icon whose key ends with a dot and the suffix
/// is found; none is found where there is no such entry.
pub proof fn law_lookup_suffix(entries: Seq<EntryView>, query: Seq<char>, i: int)
    ensures
        0 <= i < entries.len() && (seq!['.'] + query).is_suffix_of(entries[i].key)
            && entries[i].icon.len() > 0 && (forall|j: int|
            0 <= j < i ==> !((seq!['.'] + query).is_suffix_of((#[trigger] entries[j]).key)
                && entries[j].icon.len() > 0)) ==> first_match(
            entries,
            KeyMatch::DottedSuffix,
            query,
        ) == Some((entries[i].name, entries[i].icon)),
        (forall|j: int|
            0 <= j < entries.len() ==> !((seq!['.'] + query).is_suffix_of(
                (#[trigger] entries[j]).key,
            ) && entries[j].icon.len() > 0)) ==> first_match(
            entries,
            KeyMatch::DottedSuffix,
            query,
        ) is None,
{
    let how = KeyMatch::DottedSuffix;
    reveal_strlit(".");
    assert("."@ == seq!['.']);
    law_first_match(entries, how, query);
    if 0 <= i < entries.len() && (seq!['.'] + query).is_suffix_of(entries[i].key)
        && entries[i].icon.len() > 0 {
        assert(answers(entries, i, how, query));
    }
}

/// A window whose class is the key of an entry with an icon gets the name and the icon of the
/// first such entry, whatever its command line is.
pub proof fn law_window_by_class(
    entries: Seq<EntryView>,
    class: Seq<char>,
    words: Seq<Seq<char>>,
    i: int,
)
    requires
        0 <= i < entries.len(),
        entries[i].key == class,
        entries[i].icon.len() > 0,
        forall|j: int|
            0 <= j < i ==> !((#[trigger] entries[j]).key == class && entries[j].icon.len() > 0),
    ensures
        window_match(entries, class, words) == Some((entries[i].name, entries[i].icon)),
{
    law_lookup_exact(entries, class, i);
}

/// A window whose class is the key of no entry with an icon, but begins with letters and digits
/// that the key of one begins with, gets the name and the icon of the first such entry,
/// whatever its command line is.
pub proof fn law_window_by_prefix(
    entries: Seq<EntryView>,
    lead: Seq<char>,
    rest: Seq<char>,
    words: Seq<Seq<char>>,
    i: int,
)
    requires
        forall|j: int|
            0 <= j < entries.len() ==> !((#[trigger] entries[j]).key == lead + rest
                && entries[j].icon.len() > 0),
        lead.len() > 0,
        forall|k: int| 0 <= k < lead.len() ==> letter_or_digit(#[trigger] lead[k]),
        rest.len() > 0 ==> !letter_or_digit(rest[0]),
        0 <= i < entries.len(),
        lead.is_prefix_of(entries[i].key),
        entries[i].icon.len() > 0,
        forall|j: int|
            0 <= j < i ==> !(lead.is_prefix_of((#[trigger] entries[j]).key)
                && entries[j].icon.len() > 0),
    ensures
        window_match(entries, lead + rest, words) == Some((entries[i].name, entries[i].icon)),
{
    law_leading_run(lead, rest);
    law_lookup_exact(entries, lead + rest, 0);
    law_lookup_prefix(entries, lead, i);
}

/// Nothing is found for a window without a command line where its class is the key of no entry
/// with an icon, and no such key begins with the letters and digits that the class begins with,
/// as far as there are any.
pub proof fn law_window_unknown(entries: Seq<EntryView>, lead: Seq<char>, rest: Seq<char>)
    requires
        forall|k: int| 0 <= k < lead.len() ==> letter_or_digit(#[trigger] lead[k]),
        rest.len() > 0 ==> !letter_or_digit(rest[0]),
        forall|j: int|
            0 <= j < entries.len() ==> !((#[trigger] entries[j]).key == lead + rest
                && entries[j].icon.len() > 0),
        lead.len() > 0 ==> forall|j: int|
            0 <= j < entries.len() ==> !(lead.is_prefix_of((#[trigger] entries[j]).key)
                && entries[j].icon.len() > 0),
    ensures
        window_match(entries, lead + rest, Seq::empty()) is None,
{
    law_leading_run(lead, rest);
    law_lookup_exact(entries, lead + rest, 0);
    law_lookup_prefix(entries, lead, 0);
}

/// Where the class finds nothing, the first word of the command line that something is found
/// for decides, as if it were the only one; where there is no such word, nothing is found.
pub proof fn law_first_word_decides(
    entries: Seq<EntryView>,
    class: Seq<char>,
    words: Seq<Seq<char>>,
    k: int,
)
    requires
        window_match(entries, class, Seq::empty()) is None,
        0 <= k <= words.len(),
        forall|j: int| 0 <= j < k ==> word_match(entries, #[trigger] words[j]) is None,
        k < words.len() ==> word_match(entries, words[k]) is Some,
    ensures
        k < words.len() ==> window_match(entries, class, words) == word_match(entries, words[k]),
        k < words.len() ==> window_match(entries, class, words) == window_match(
            entries,
            class,
            seq![words[k]],
        ),
        k == words.len() ==> window_match(entries, class, words) is None,
{
    lemma_first_word(entries, words, k);
    if k < words.len() {
        assert(seq![words[k]][0] == words[k]);
    }
}

proof fn lemma_first_word(entries: Seq<EntryView>, words: Seq<Seq<char>>, k: int)
    requires
        0 <= k <= words.len(),
        forall|j: int| 0 <= j < k ==> word_match(entries, #[trigger] words[j]) is None,
        k < words.len() ==> word_match(entries, words[k]) is Some,
    ensures
        k < words.len() ==> words_match(entries, words) == word_match(entries, words[k]),
        k == words.len() ==> words_match(entries, words) is None,
    decreases words.len(),
{
    if k > 0 {
        let rest = words.drop_first();
        assert(word_match(entries, words[0]) is None);
        assert forall|j: int| 0 <= j < k - 1 implies word_match(
            entries,
            #[trigger] rest[j],
        ) is None by {
            assert(rest[j] == words[j + 1]);
        }
        assert(k < words.len() ==> rest[k - 1] == words[k]);
        lemma_first_word(entries, rest, k - 1);
    }
}

/// A word that is the key of an entry with an icon finds the first such entry.
pub proof fn law_word_by_key(entries: Seq<EntryView>, word: Seq<char>, i: int)
    requires
        0 <= i < entries.len(),
        entries[i].key == word,
        entries[i].icon.len() > 0,
        forall|j: int|
            0 <= j < i ==> !((#[trigger] entries[j]).key == word && entries[j].icon.len() > 0),
    ensures
        word_match(entries, word) == Some((entries[i].name, entries[i].icon)),
{
    law_lookup_exact(entries, word, i);
}

/// A word that is the key of no entry with an icon finds the first one whose key begins with
/// the letters and digits that the word begins with.
pub proof fn law_word_by_prefix(
    entries: Seq<EntryView>,
    lead: Seq<char>,
    rest: Seq<char>,
    i: int,
)
    requires
        forall|j: int|
            0 <= j < entries.len() ==> !((#[trigger] entries[j]).key == lead + rest
                && entries[j].icon.len() > 0),
        lead.len() > 0,
        forall|k: int| 0 <= k < lead.len() ==> letter_or_digit(#[trigger] lead[k]),
        rest.len() > 0 ==> !letter_or_digit(rest[0]),
        0 <= i < entries.len(),
        lead.is_prefix_of(entries[i].key),
        entries[i].icon.len() > 0,
        forall|j: int|
            0 <= j < i ==> !(lead.is_prefix_of((#[trigger] entries[j]).key)
                && entries[j].icon.len() > 0),
    ensures
        word_match(entries, lead + rest) == Some((entries[i].name, entries[i].icon)),
{
    law_leading_run(lead, rest);
    law_lookup_exact(entries, lead + rest, 0);
    law_lookup_prefix(entries, lead, i);
}

/// A word that finds nothing in these two ways finds the first entry with an icon whose key ends
/// with a dot and the letters and digits that the word begins with.
pub proof fn law_word_by_suffix(
    entries: Seq<EntryView>,
    lead: Seq<char>,
    rest: Seq<char>,
    i: int,
)
    requires
        forall|j: int|
            0 <= j < entries.len() ==> !((#[trigger] entries[j]).key == lead + rest
                && entries[j].icon.len() > 0),
        lead.len() > 0,
        forall|k: int| 0 <= k < lead.len() ==> letter_or_digit(#[trigger] lead[k]),
        rest.len() > 0 ==> !letter_or_digit(rest[0]),
        forall|j: int|
            0 <= j < entries.len() ==> !(lead.is_prefix_of((#[trigger] entries[j]).key)
                && entries[j].icon.len() > 0),
        0 <= i < entries.len(),
        (seq!['.'] + lead).is_suffix_of(entries[i].key),
        entries[i].icon.len() > 0,
        forall|j: int|
            0 <= j < i ==> !((seq!['.'] + lead).is_suffix_of((#[trigger] entries[j]).key)
                && entries[j].icon.len() > 0),
    ensures
        word_match(entries, lead + rest) == Some((entries[i].name, entries[i].icon)),
{
    law_leading_run(lead, rest);
    law_lookup_exact(entries, lead + rest, 0);
    law_lookup_prefix(entries, lead, 0);
    law_lookup_suffix(entries, lead, i);
}

/// A word finds nothing where it is the key of no entry with an icon, and no such key begins
/// with its leading letters and digits, or ends with a dot and these, as far as there are any.
pub proof fn law_word_unknown(entries: Seq<EntryView>, lead: Seq<char>, rest: Seq<char>)
    requires
        forall|k: int| 0 <= k < lead.len() ==> letter_or_digit(#[trigger] lead[k]),
        rest.len() > 0 ==> !letter_or_digit(rest[0]),
        forall|j: int|
            0 <= j < entries.len() ==> !((#[trigger] entries[j]).key == lead + rest
                && entries[j].icon.len() > 0),
        lead.len() > 0 ==> forall|j: int|
            0 <= j < entries.len() ==> !((lead.is_prefix_of((#[trigger] entries[j]).key) || (
            seq!['.'] + lead).is_suffix_of(entries[j].key)) && entries[j].icon.len() > 0),
    ensures
        word_match(entries, lead + rest) is None,
{
    law_leading_run(lead, rest);
    law_lookup_exact(entries, lead + rest, 0);
    law_lookup_prefix(entries, lead, 0);
    law_lookup_suffix(entries, lead, 0);
}

/// An argument ends at a zero byte, and the next begins behind it; bytes without a zero among
/// them are one argument.
pub proof fn law_zero_byte_ends_an_argument(a: Seq<u8>, b: Seq<u8>)
    requires
        !b.contains(0),
    ensures
        arguments(b) == seq![b],
        arguments(a + seq![0u8] + b) == arguments(a).push(b),
    decreases b.len(),
{
    let s = a + seq![0u8] + b;
    if b.len() == 0 {
        assert(s.drop_last() == a);
        assert(s.last() == 0);
        assert(b == Seq::<u8>::empty());
    } else {
        let init = b.drop_last();
        assert forall|j: int| 0 <= j < init.len() implies init[j] != 0 by {
            assert(b.contains(b[j]));
        }
        assert(b.contains(b.last()));
        law_zero_byte_ends_an_argument(a, init);
        assert(s.drop_last() == a + seq![0u8] + init);
        assert(s.last() == b.last());
        assert(init.push(b.last()) == b);
        assert(arguments(a).push(init).drop_last() == arguments(a));
        assert(arguments(s) == arguments(a).push(b));
        assert(seq![init].drop_last() == Seq::<Seq<u8>>::empty());
        assert(arguments(b) == seq![b]);
    }
}

/// What says nothing of an application: nothing at all, whatever begins with the name of the
/// Python interpreter or of Electron, and eight more programs by their full names. Every other
/// word is looked up.
pub proof fn law_uninformative(word: Seq<char>, more: Seq<char>)
    ensures
        uninformative(Seq::empty()),
        uninformative("python"@ + more),
        uninformative("electron"@ + more),
        uninformative("java"@) && uninformative("node"@) && uninformative("sh"@) && uninformative(
            "bash"@,
        ) && uninformative("dash"@) && uninformative("env"@) && uninformative("perl"@)
            && uninformative("ruby"@),
        word.len() > 0 && !"python"@.is_prefix_of(word) && !"electron"@.is_prefix_of(word) && word
            != "java"@ && word != "node"@ && word != "sh"@ && word != "bash"@ && word != "dash"@
            && word != "env"@ && word != "perl"@ && word != "ruby"@ ==> !uninformative(word),
{
    assert("python"@ == ("python"@ + more).subrange(0, "python"@.len() as int));
    assert("electron"@ == ("electron"@ + more).subrange(0, "electron"@.len() as int));
}

/// An argument that begins with a dash has no file name. Any other has: what follows its last
/// slash, or all of it where it has none.
pub proof fn law_file_name(dir: Seq<char>, name: Seq<char>)
    requires
        !name.contains('/'),
    ensures
        file_name(seq!['-'] + dir) is None,
        name.len() == 0 || name[0] != '-' ==> file_name(name) == Some(name),
        dir.len() == 0 || dir[0] != '-' ==> file_name(dir + seq!['/'] + name) == Some(name),
{
    reveal_strlit("-");
    assert("-"@ == seq!['-']);
    crate::text::law_after_last(dir, name, '/');
    let option = seq!['-'] + dir;
    assert("-"@ == option.subrange(0, 1));
    if name.len() > 0 {
        assert(name.subrange(0, 1)[0] == name[0]);
    }
    let path = dir + seq!['/'] + name;
    assert(path[0] == if dir.len() == 0 {
        '/'
    } else {
        dir[0]
    });
    assert(path.subrange(0, 1)[0] == path[0]);
}

/// The words of some arguments and some more are those of the former, then those of the latter.
pub proof fn law_words_of_more_arguments(a: Seq<Seq<u8>>, b: Seq<Seq<u8>>)
    ensures
        argument_words(Seq::empty()) == Seq::<Seq<char>>::empty(),
        argument_words(a + b) == argument_words(a) + argument_words(b),
    decreases b.len(),
{
    if b.len() == 0 {
        assert(a + b == a);
        assert(argument_words(a) + argument_words(b) == argument_words(a));
    } else {
        law_words_of_more_arguments(a, b.drop_last());
        assert((a + b).drop_last() == a + b.drop_last());
        assert((a + b).last() == b.last());
        assert(argument_words(a + b) == argument_words(a) + argument_words(b));
    }
}

/// An argument is looked up by its file name in lowercase, unless it is empty, an option, or
/// its file name says nothing of the application. Its text is its UTF-8, where it is valid.
pub proof fn law_word_of_an_argument(argument: Seq<u8>)
    ensures
        ({
            let text = if vstd::utf8::valid_utf8(argument) {
                vstd::utf8::decode_utf8(argument)
            } else {
                utf8_lossy(argument)
            };
            let words = argument_words(seq![argument]);
            &&& argument.len() == 0 ==> words.len() == 0
            &&& file_name(text) is None ==> words.len() == 0
            &&& argument.len() > 0 ==> (file_name(text) matches Some(name) ==> {
                &&& uninformative(lowercase(name)) ==> words.len() == 0
                &&& !uninformative(lowercase(name)) ==> words == seq![lowercase(name)]
            })
        }),
{
    assert(seq![argument].drop_last() == Seq::<Seq<u8>>::empty());
    assert(argument_words(Seq::empty()) == Seq::<Seq<char>>::empty());
    let words = argument_words(seq![argument]);
    match argument_word(argument) {
        Some(word) => {
            assert(words == seq![word]);
        },
        None => {},
    }
}

/// A process has the words of its command line where its id is positive and the command line is
/// to be had, and none in any other case.
pub proof fn law_process_words(pid: i32, raw: Vec<u8>)
    ensures
        pid > 0 ==> process_words(pid, Some(raw)) == argument_words(arguments(raw@)),
        pid <= 0 ==> process_words(pid, Some(raw)).len() == 0,
        process_words(pid, None).len() == 0,
{
}

/// The icon is that of what was found; the class stands in for it only where nothing was.
pub proof fn law_icon_or_class(name: Seq<char>, icon: Seq<char>, class: Seq<char>)
    ensures
        icon_or_class(Some((name, icon)), class) == icon,
        icon_or_class(None, class) == class,
{
}

/// A pair of strings is read for what they hold, in its order.
pub proof fn law_pair_view(a: String, b: String)
    ensures
        pair_view(Some((a, b))) == Some((a@, b@)),
        pair_view(None) is None,
{
}

} // verus!
