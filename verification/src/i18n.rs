//! Translation.
//!
//! English is the base catalogue and the fallback: a key missing from another
//! language falls back to English rather than showing the raw key, so a
//! partial translation degrades to a readable mix instead of nonsense. A key
//! missing from every catalogue shows itself, which is obvious in a
//! screenshot and searchable.
//!
//! Catalogues are TOML tables of strings. The interface language and the
//! parsed catalogues live together in a `Translator`; every string is looked
//! up as it is drawn, so a change of language takes effect on the next frame.

use vstd::prelude::*;

use crate::text::{chars_of, find_char_from, index_from, lemma_index_from_ensures, slice_of, string_of};

verus! {

#[derive(Debug, Clone, Copy, PartialEq, Eq, Structural)]
pub enum Language {
    English,
    Spanish,
}

impl Default for Language {
    fn default() -> (r: Self)
        ensures
            r == Language::English,
    {
        Language::English
    }
}

/// The values the `language` setting accepts, in the order the settings view
/// cycles through them. `auto` follows the system locale.
pub const LANGUAGE_CHOICES: [&'static str; 3] = ["auto", "en", "es"];

/// A language's code.
pub open spec fn code_of(language: Language) -> Seq<char> {
    match language {
        Language::English => seq!['e', 'n'],
        Language::Spanish => seq!['e', 's'],
    }
}

/// A language's own name for itself.
pub open spec fn label_of(language: Language) -> Seq<char> {
    match language {
        Language::English => seq!['E', 'n', 'g', 'l', 'i', 's', 'h'],
        Language::Spanish => seq!['E', 's', 'p', 'a', 'ñ', 'o', 'l'],
    }
}

/// Whether `c` separates the primary subtag of a locale tag from the rest.
pub open spec fn is_tag_separator(c: char) -> bool {
    c == '_' || c == '-' || c == '.' || c == '@'
}

/// The primary subtag: everything before the first separator.
pub open spec fn primary_subtag(tag: Seq<char>) -> Seq<char> {
    if exists|i: int| 0 <= i < tag.len() && is_tag_separator(tag[i]) {
        let k = choose|i: int|
            0 <= i < tag.len() && is_tag_separator(tag[i]) && forall|j: int|
                0 <= j < i ==> !is_tag_separator(tag[j]);
        tag.take(k)
    } else {
        tag
    }
}

/// The code point of `c` with ASCII capitals lowered.
pub open spec fn ascii_lower_code(c: char) -> int {
    if 'A' <= c && c <= 'Z' {
        c as int + 32
    } else {
        c as int
    }
}

/// Whether `s`, with ASCII capitals lowered, is `lower`.
pub open spec fn lowers_to(s: Seq<char>, lower: Seq<char>) -> bool {
    s.len() == lower.len() && forall|i: int| 0 <= i < s.len() ==> ascii_lower_code(#[trigger] s[i]) == lower[i] as int
}

/// The language a tag such as `es`, `es_ES.UTF-8` or `es-419` names.
pub open spec fn language_of_tag(tag: Seq<char>) -> Option<Language> {
    let primary = primary_subtag(tag);
    if lowers_to(primary, seq!['e', 'n']) {
        Some(Language::English)
    } else if lowers_to(primary, seq!['e', 's']) {
        Some(Language::Spanish)
    } else {
        None
    }
}

impl Language {
    pub fn code(self) -> (s: &'static str)
        ensures
            s@ == code_of(self),
    {
        match self {
            Language::English => {
                let s = "en";
                proof {
                    reveal_strlit("en");
                }
                s
            },
            Language::Spanish => {
                let s = "es";
                proof {
                    reveal_strlit("es");
                }
                s
            },
        }
    }

    /// The language's own name for itself, which is what a language picker
    /// should show: someone looking for Spanish is looking for "Español", not
    /// for whatever the current interface language calls it.
    pub fn label(self) -> (s: &'static str)
        ensures
            s@ == label_of(self),
    {
        match self {
            Language::English => {
                let s = "English";
                proof {
                    reveal_strlit("English");
                }
                s
            },
            Language::Spanish => {
                let s = "Español";
                proof {
                    reveal_strlit("Español");
                }
                s
            },
        }
    }

    /// The number a language is stored as.
    pub fn ordinal(self) -> (n: u8)
        ensures
            n == match self {
                Language::English => 0u8,
                Language::Spanish => 1u8,
            },
    {
        match self {
            Language::English => 0,
            Language::Spanish => 1,
        }
    }

    /// The language stored as `value`; anything unknown reads as English.
    pub fn from_ordinal(value: u8) -> (l: Self)
        ensures
            l == if value == 1 {
                Language::Spanish
            } else {
                Language::English
            },
    {
        if value == 1 {
            Language::Spanish
        } else {
            Language::English
        }
    }

    /// Parse a language tag such as `es`, `es_ES.UTF-8` or `es-419`.
    pub fn from_tag(tag: &str) -> (l: Option<Self>)
        ensures
            l == language_of_tag(tag@),
    {
        let chars = chars_of(tag);
        let mut k: usize = 0;
        while k < chars.len() && !(chars[k] == '_' || chars[k] == '-' || chars[k] == '.' || chars[k]
            == '@')
            invariant
                k <= chars@.len(),
                forall|j: int| 0 <= j < k ==> !is_tag_separator(#[trigger] chars@[j]),
            decreases chars.len() - k,
        {
            k = k + 1;
        }
        let ghost primary = chars@.take(k as int);
        proof {
            if k < chars@.len() {
                let w = choose|i: int|
                    0 <= i < chars@.len() && is_tag_separator(chars@[i]) && forall|j: int|
                        0 <= j < i ==> !is_tag_separator(chars@[j]);
                assert(is_tag_separator(chars@[k as int]));
                if w < k {
                    assert(!is_tag_separator(chars@[w]));
                } else if w > k {
                    assert(!is_tag_separator(chars@[k as int]));
                }
                assert(primary_subtag(chars@) == primary);
            } else {
                assert(chars@.take(k as int) =~= chars@);
                assert(primary_subtag(chars@) == primary);
            }
        }
        if k != 2 {
            return None;
        }
        let first = lower_code(chars[0]);
        let second = lower_code(chars[1]);
        proof {
            assert(primary[0] == chars@[0]);
            assert(primary[1] == chars@[1]);
        }
        if first == 'e' as u32 && second == 'n' as u32 {
            assert(lowers_to(primary, seq!['e', 'n']));
            Some(Language::English)
        } else if first == 'e' as u32 && second == 's' as u32 {
            assert(lowers_to(primary, seq!['e', 's']));
            Some(Language::Spanish)
        } else {
            proof {
                if lowers_to(primary, seq!['e', 'n']) {
                    assert(ascii_lower_code(primary[0]) == 'e' as int);
                    assert(ascii_lower_code(primary[1]) == 'n' as int);
                }
                if lowers_to(primary, seq!['e', 's']) {
                    assert(ascii_lower_code(primary[0]) == 'e' as int);
                    assert(ascii_lower_code(primary[1]) == 's' as int);
                }
            }
            None
        }
    }
}

pub(crate) fn lower_code(c: char) -> (r: u32)
    ensures
        r as int == ascii_lower_code(c),
{
    let code = c as u32;
    if c >= 'A' && c <= 'Z' {
        code + 32
    } else {
        code
    }
}

/// The language the environment asks for, if muscli speaks it: the first of
/// the locale settings given (in the order `LC_ALL`, `LC_MESSAGES`, `LANG`,
/// those that are set) that names one.
pub open spec fn first_spoken(values: Seq<Seq<char>>) -> Option<Language>
    decreases values.len(),
{
    if values.len() == 0 {
        None
    } else {
        match language_of_tag(values[0]) {
            Some(l) => Some(l),
            None => first_spoken(values.drop_first()),
        }
    }
}

/// The language the locale settings ask for, if muscli speaks it.
pub fn detect_language(values: &[String]) -> (l: Option<Language>)
    ensures
        l == first_spoken(Seq::new(values@.len(), |i: int| values@[i]@)),
{
    let ghost all = Seq::new(values@.len(), |i: int| values@[i]@);
    let mut i: usize = 0;
    assert(all.skip(0) =~= all);
    while i < values.len()
        invariant
            i <= values@.len(),
            all == Seq::new(values@.len(), |k: int| values@[k]@),
            first_spoken(all) == first_spoken(all.skip(i as int)),
        decreases values.len() - i,
    {
        let ghost rest = all.skip(i as int);
        assert(rest[0] == values@[i as int]@);
        assert(rest.drop_first() =~= all.skip(i + 1));
        let found = Language::from_tag(values[i].as_str());
        if found.is_some() {
            return found;
        }
        i = i + 1;
    }
    None
}

/// The interface language for a `--lang` flag, the configured setting and
/// what the system locale asks for.
pub open spec fn resolved_language(
    flag: Option<Seq<char>>,
    configured: Seq<char>,
    detected: Option<Language>,
) -> Language {
    let from_flag = match flag {
        Some(f) => language_of_tag(f),
        None => None,
    };
    match from_flag {
        Some(l) => l,
        None => match language_of_tag(configured) {
            Some(l) => l,
            None => match detected {
                Some(l) => l,
                None => Language::English,
            },
        },
    }
}

/// Pick the interface language.
///
/// The `--lang` flag wins over the configured language, which wins over the
/// system locale (`detected`). An unrecognised name is not worth refusing to
/// start over; it falls through to detection, and then to English.
pub fn resolve_language(flag: Option<&str>, configured: &str, detected: Option<Language>) -> (l:
    Language)
    ensures
        l == resolved_language(
            match flag {
                Some(f) => Some(f@),
                None => None,
            },
            configured@,
            detected,
        ),
{
    let from_flag = match flag {
        Some(f) => Language::from_tag(f),
        None => None,
    };
    match from_flag {
        Some(l) => l,
        None => match Language::from_tag(configured) {
            Some(l) => l,
            None => match detected {
                Some(l) => l,
                None => Language::default(),
            },
        },
    }
}

/// What `toml::from_str` reads from `source` as a table of strings: its
/// entries in key order, or `None` where the source is not such a table.
pub uninterp spec fn toml_string_table(source: Seq<char>) -> Option<Seq<(Seq<char>, Seq<char>)>>;

/// The entries of a catalogue as text.
pub open spec fn entry_views(entries: Seq<(String, String)>) -> Seq<(Seq<char>, Seq<char>)> {
    Seq::new(entries.len(), |i: int| (entries[i].0@, entries[i].1@))
}

/// `toml::from_str` into a `BTreeMap<String, String>`, flattened into its
/// entries in key order; the error is carried as its message.
///
/// Trusted: the entries are what the TOML parser reads from `source`, named
/// by `toml_string_table`; an error comes exactly when that name is `None`.
#[verifier::external_body]
fn parse_string_table(source: &str) -> (r: Result<Vec<(String, String)>, String>)
    ensures
        match r {
            Ok(entries) => toml_string_table(source@) == Some(entry_views(entries@)),
            Err(_) => toml_string_table(source@) is None,
        },
{
    match toml::from_str::<std::collections::BTreeMap<String, String>>(source) {
        Ok(table) => Ok(table.into_iter().collect()),
        Err(error) => Err(error.to_string()),
    }
}

/// A catalogue that is not a TOML table of strings.
#[derive(Debug, Clone)]
pub struct MalformedCatalogue {
    /// Which catalogue, by the name of its language.
    pub name: String,
    /// What the TOML parser said.
    pub message: String,
}

/// Parse one catalogue.
pub fn parse(source: &str, name: &str) -> (r: Result<Vec<(String, String)>, MalformedCatalogue>)
    ensures
        match r {
            Ok(entries) => toml_string_table(source@) == Some(entry_views(entries@)),
            Err(e) => toml_string_table(source@) is None && e.name@ == name@,
        },
{
    match parse_string_table(source) {
        Ok(entries) => Ok(entries),
        Err(message) => Err(MalformedCatalogue { name: name.to_owned(), message }),
    }
}

/// The English and Spanish catalogues.
#[derive(Debug, Clone)]
pub struct Catalogues {
    pub english: Vec<(String, String)>,
    pub spanish: Vec<(String, String)>,
}

/// Parse both catalogues; the first one that is malformed is reported.
pub fn catalogues(english: &str, spanish: &str) -> (r: Result<Catalogues, MalformedCatalogue>)
    ensures
        match r {
            Ok(c) => toml_string_table(english@) == Some(entry_views(c.english@))
                && toml_string_table(spanish@) == Some(entry_views(c.spanish@)),
            Err(e) => (toml_string_table(english@) is None && e.name@ == "English"@) || (
            toml_string_table(english@) is Some && toml_string_table(spanish@) is None
                && e.name@ == "Spanish"@),
        },
{
    let english_entries = match parse(english, "English") {
        Ok(entries) => entries,
        Err(e) => return Err(e),
    };
    let spanish_entries = match parse(spanish, "Spanish") {
        Ok(entries) => entries,
        Err(e) => return Err(e),
    };
    Ok(Catalogues { english: english_entries, spanish: spanish_entries })
}

/// The value a catalogue gives `key`: that of its first entry with that key.
pub open spec fn entry_for(entries: Seq<(Seq<char>, Seq<char>)>, key: Seq<char>) -> Option<Seq<char>>
    decreases entries.len(),
{
    if entries.len() == 0 {
        None
    } else if entries[0].0 == key {
        Some(entries[0].1)
    } else {
        entry_for(entries.drop_first(), key)
    }
}

/// The catalogues and the interface language they are read in.
#[derive(Debug, Clone)]
pub struct Translator {
    catalogues: Catalogues,
    active: Language,
}

impl Translator {
    /// The interface language.
    pub closed spec fn active(&self) -> Language {
        self.active
    }

    /// The English catalogue's entries.
    pub closed spec fn english(&self) -> Seq<(Seq<char>, Seq<char>)> {
        entry_views(self.catalogues.english@)
    }

    /// The Spanish catalogue's entries.
    pub closed spec fn spanish(&self) -> Seq<(Seq<char>, Seq<char>)> {
        entry_views(self.catalogues.spanish@)
    }

    /// A translator over `catalogues`, speaking English.
    pub fn new(catalogues: Catalogues) -> (t: Self)
        ensures
            t.active() == Language::English,
            t.english() == entry_views(catalogues.english@),
            t.spanish() == entry_views(catalogues.spanish@),
    {
        Translator { catalogues, active: Language::English }
    }
}

/// Set the interface language.
///
/// Called during start-up, and again whenever the setting is changed in the
/// settings view. The language read back is the one set, and the
/// catalogues are untouched.
pub fn set_language(translator: &mut Translator, language: Language)
    ensures
        final(translator).active() == language,
        final(translator).english() == old(translator).english(),
        final(translator).spanish() == old(translator).spanish(),
{
    translator.active = Language::from_ordinal(language.ordinal());
}

/// The interface language.
pub fn language(translator: &Translator) -> (l: Language)
    ensures
        l == translator.active(),
{
    translator.active
}

/// The translation for `key` in `active`: Spanish where the Spanish catalogue
/// has it, else English, else the key itself.
pub open spec fn translation(
    english: Seq<(Seq<char>, Seq<char>)>,
    spanish: Seq<(Seq<char>, Seq<char>)>,
    active: Language,
    key: Seq<char>,
) -> Seq<char> {
    let from_active = match active {
        Language::English => None,
        Language::Spanish => entry_for(spanish, key),
    };
    match from_active {
        Some(v) => v,
        None => match entry_for(english, key) {
            Some(v) => v,
            None => key,
        },
    }
}

fn find_entry(entries: &Vec<(String, String)>, key: &str) -> (r: Option<String>)
    ensures
        r matches Some(v) ==> entry_for(entry_views(entries@), key@) == Some(v@),
        r is None ==> entry_for(entry_views(entries@), key@) is None,
{
    let target = chars_of(key);
    let ghost all = entry_views(entries@);
    let mut i: usize = 0;
    assert(all.skip(0) =~= all);
    while i < entries.len()
        invariant
            i <= entries@.len(),
            target@ == key@,
            all == entry_views(entries@),
            entry_for(all, key@) == entry_for(all.skip(i as int), key@),
        decreases entries.len() - i,
    {
        let ghost rest = all.skip(i as int);
        assert(rest[0] == all[i as int]);
        assert(rest.drop_first() =~= all.skip(i + 1));
        if crate::text::chars_eq(&chars_of(entries[i].0.as_str()), &target) {
            return Some(entries[i].1.clone());
        }
        i = i + 1;
    }
    None
}

/// The translation for `key`, falling back to English and then to the key.
///
/// Returning the key itself is deliberate: a missing string shows up as
/// `status.scanning` in the interface, which is obvious in a screenshot and
/// searchable, rather than silently blank.
pub fn lookup(translator: &Translator, key: &str) -> (s: String)
    ensures
        s@ == translation(
            translator.english(),
            translator.spanish(),
            translator.active(),
            key@,
        ),
{
    let from_active = match translator.active {
        Language::English => None,
        Language::Spanish => find_entry(&translator.catalogues.spanish, key),
    };
    match from_active {
        Some(v) => v,
        None => match find_entry(&translator.catalogues.english, key) {
            Some(v) => v,
            None => key.to_owned(),
        },
    }
}

/// The value given for a placeholder: that of the first argument so named.
pub open spec fn argument_for(arguments: Seq<(Seq<char>, Seq<char>)>, name: Seq<char>) -> Option<
    Seq<char>,
>
    decreases arguments.len(),
{
    if arguments.len() == 0 {
        None
    } else if arguments[0].0 == name {
        Some(arguments[0].1)
    } else {
        argument_for(arguments.drop_first(), name)
    }
}

/// `template` from `pos` on with each `{name}` replaced by its argument. A
/// placeholder without an argument is left as written, and an unclosed brace
/// ends substitution: the rest is kept as it is.
#[verifier::opaque]
pub open spec fn fill_from(template: Seq<char>, pos: int, arguments: Seq<(Seq<char>, Seq<char>)>) -> Seq<char>
    decreases template.len() - pos,
{
    if pos < 0 || pos > template.len() {
        seq![]
    } else {
        match index_from(template, '{', pos) {
            None => template.subrange(pos, template.len() as int),
            Some(start) => match index_from(template, '}', start) {
                None => template.subrange(pos, template.len() as int),
                Some(end) => {
                    proof {
                        lemma_index_from_ensures(template, '{', pos);
                        lemma_index_from_ensures(template, '}', start);
                    }
                    let name = template.subrange(start + 1, end);
                    let value = match argument_for(arguments, name) {
                        Some(v) => v,
                        None => template.subrange(start, end + 1),
                    };
                    template.subrange(pos, start) + value + fill_from(template, end + 1, arguments)
                },
            },
        }
    }
}

/// The arguments as text.
pub open spec fn argument_views(arguments: Seq<(&str, String)>) -> Seq<(Seq<char>, Seq<char>)> {
    Seq::new(arguments.len(), |i: int| (arguments[i].0@, arguments[i].1@))
}

/// `template` with its placeholders substituted.
pub open spec fn filled(template: Seq<char>, arguments: Seq<(Seq<char>, Seq<char>)>) -> Seq<char> {
    fill_from(template, 0, arguments)
}

/// One placeholder of `fill_from`.
pub proof fn lemma_fill_step(
    template: Seq<char>,
    pos: int,
    arguments: Seq<(Seq<char>, Seq<char>)>,
    start: int,
    end: int,
)
    requires
        0 <= pos <= template.len(),
        index_from(template, '{', pos) == Some(start),
        index_from(template, '}', start) == Some(end),
    ensures
        fill_from(template, pos, arguments) == template.subrange(pos, start) + (match argument_for(
            arguments,
            template.subrange(start + 1, end),
        ) {
            Some(v) => v,
            None => template.subrange(start, end + 1),
        }) + fill_from(template, end + 1, arguments),
{
    reveal(fill_from);
}

/// The end of `fill_from`: no more placeholders.
pub proof fn lemma_fill_rest(template: Seq<char>, pos: int, arguments: Seq<(Seq<char>, Seq<char>)>)
    requires
        0 <= pos <= template.len(),
        match index_from(template, '{', pos) {
            None => true,
            Some(start) => index_from(template, '}', start) is None,
        },
    ensures
        fill_from(template, pos, arguments) == template.subrange(pos, template.len() as int),
{
    reveal(fill_from);
}

/// With no arguments every placeholder stays as written, so the template
/// comes back unchanged.
pub proof fn lemma_no_arguments_keep_the_template(template: Seq<char>)
    ensures
        filled(template, Seq::<(Seq<char>, Seq<char>)>::empty()) == template,
{
    lemma_fill_from_without_arguments(template, 0);
    assert(template.subrange(0, template.len() as int) =~= template);
}

proof fn lemma_fill_from_without_arguments(template: Seq<char>, pos: int)
    requires
        0 <= pos <= template.len(),
    ensures
        fill_from(template, pos, Seq::<(Seq<char>, Seq<char>)>::empty()) == template.subrange(
            pos,
            template.len() as int,
        ),
    decreases template.len() - pos,
{
    let none = Seq::<(Seq<char>, Seq<char>)>::empty();
    lemma_index_from_ensures(template, '{', pos);
    match index_from(template, '{', pos) {
        None => lemma_fill_rest(template, pos, none),
        Some(start) => {
            lemma_index_from_ensures(template, '}', start);
            match index_from(template, '}', start) {
                None => lemma_fill_rest(template, pos, none),
                Some(end) => {
                    lemma_fill_step(template, pos, none, start, end);
                    lemma_fill_from_without_arguments(template, end + 1);
                    assert(template.subrange(pos, start) + template.subrange(start, end + 1)
                        + template.subrange(end + 1, template.len() as int) =~= template.subrange(
                        pos,
                        template.len() as int,
                    ));
                },
            }
        },
    }
}

/// A template without an opening brace has nothing to substitute: it comes
/// back unchanged whatever the arguments.
pub proof fn lemma_plain_template_unchanged(template: Seq<char>, arguments: Seq<(Seq<char>, Seq<char>)>)
    requires
        forall|i: int| 0 <= i < template.len() ==> template[i] != '{',
    ensures
        filled(template, arguments) == template,
{
    lemma_index_from_ensures(template, '{', 0);
    lemma_fill_rest(template, 0, arguments);
    assert(template.subrange(0, template.len() as int) =~= template);
}

fn find_argument(arguments: &[(&str, String)], name: &[char]) -> (r: Option<usize>)
    ensures
        r matches Some(i) ==> i < arguments@.len() && argument_for(argument_views(arguments@), name@)
            == Some(arguments@[i as int].1@),
        r is None ==> argument_for(argument_views(arguments@), name@) is None,
{
    let ghost all = argument_views(arguments@);
    let mut i: usize = 0;
    assert(all.skip(0) =~= all);
    while i < arguments.len()
        invariant
            i <= arguments@.len(),
            all == argument_views(arguments@),
            argument_for(all, name@) == argument_for(all.skip(i as int), name@),
        decreases arguments.len() - i,
    {
        let ghost rest = all.skip(i as int);
        assert(rest[0] == all[i as int]);
        assert(rest.drop_first() =~= all.skip(i + 1));
        if crate::text::chars_eq(&chars_of(arguments[i].0), name) {
            return Some(i);
        }
        i = i + 1;
    }
    None
}

fn push_all(out: &mut Vec<char>, more: &[char])
    ensures
        final(out)@ == old(out)@ + more@,
{
    let mut i: usize = 0;
    let ghost start = out@;
    while i < more.len()
        invariant
            i <= more@.len(),
            out@ == start + more@.take(i as int),
        decreases more.len() - i,
    {
        out.push(more[i]);
        i = i + 1;
        assert(out@ =~= start + more@.take(i as int));
    }
    assert(more@.take(more@.len() as int) =~= more@);
}

/// Substitute `{name}` placeholders.
///
/// Deliberately minimal: no escaping, no format specifiers. Translators only
/// ever need to move placeholders around, and anything richer belongs in the
/// code that builds the value, which hands it over as text.
pub fn format_template(template: &str, arguments: &[(&str, String)]) -> (out: String)
    ensures
        out@ == filled(template@, argument_views(arguments@)),
{
    let ghost args = argument_views(arguments@);
    let t = chars_of(template);
    let mut output: Vec<char> = Vec::new();
    let mut pos: usize = 0;
    let mut done = false;
    while !done
        invariant
            pos <= t@.len(),
            t@ == template@,
            args == argument_views(arguments@),
            !done ==> output@ + fill_from(t@, pos as int, args) == filled(t@, args),
            done ==> output@ == filled(t@, args),
        decreases t.len() - pos + if done {
            0int
        } else {
            1int
        },
    {
        proof {
            lemma_index_from_ensures(t@, '{', pos as int);
        }
        match find_char_from(&t, '{', pos) {
            None => {
                proof {
                    lemma_fill_rest(t@, pos as int, args);
                }
                let rest = slice_of(&t, pos, t.len());
                push_all(&mut output, &rest);
                done = true;
            },
            Some(start) => {
                proof {
                    lemma_index_from_ensures(t@, '}', start as int);
                }
                match find_char_from(&t, '}', start) {
                    None => {
                        proof {
                            lemma_fill_rest(t@, pos as int, args);
                        }
                        let rest = slice_of(&t, pos, t.len());
                        push_all(&mut output, &rest);
                        done = true;
                    },
                    Some(end) => {
                        proof {
                            lemma_fill_step(t@, pos as int, args, start as int, end as int);
                        }
                        let ghost before = output@;
                        let head = slice_of(&t, pos, start);
                        push_all(&mut output, &head);
                        let name = slice_of(&t, start + 1, end);
                        let ghost value = match argument_for(args, name@) {
                            Some(v) => v,
                            None => t@.subrange(start as int, end + 1),
                        };
                        match find_argument(arguments, &name) {
                            Some(i) => {
                                let v = chars_of(arguments[i].1.as_str());
                                push_all(&mut output, &v);
                            },
                            None => {
                                let written = slice_of(&t, start, end + 1);
                                push_all(&mut output, &written);
                            },
                        }
                        assert(output@ == before + t@.subrange(pos as int, start as int) + value);
                        assert(before + (t@.subrange(pos as int, start as int) + value + fill_from(
                            t@,
                            end + 1,
                            args,
                        )) =~= output@ + fill_from(t@, end + 1, args));
                        pos = end + 1;
                    },
                }
            },
        }
    }
    string_of(&output)
}

/// The translation of `key` with its placeholders substituted.
pub fn format(translator: &Translator, key: &str, arguments: &[(&str, String)]) -> (out: String)
    ensures
        out@ == filled(
            translation(
                translator.english(),
                translator.spanish(),
                translator.active(),
                key@,
            ),
            argument_views(arguments@),
        ),
{
    let template = lookup(translator, key);
    format_template(template.as_str(), arguments)
}

/// The key of the singular or plural form of `key`: `key.one` for a count
/// of one, `key.other` for any other.
pub open spec fn plural_key(key: Seq<char>, count: u64) -> Seq<char> {
    if count == 1 {
        key + seq!['.', 'o', 'n', 'e']
    } else {
        key + seq!['.', 'o', 't', 'h', 'e', 'r']
    }
}

/// Pick the singular or plural form of `key`, by way of `key.one` and
/// `key.other`.
pub fn plural(translator: &Translator, key: &str, count: u64) -> (s: String)
    ensures
        s@ == translation(
            translator.english(),
            translator.spanish(),
            translator.active(),
            plural_key(key@, count),
        ),
{
    let mut full = chars_of(key);
    if count == 1 {
        let suffix = vec!['.', 'o', 'n', 'e'];
        push_all(&mut full, &suffix);
    } else {
        let suffix = vec!['.', 'o', 't', 'h', 'e', 'r'];
        push_all(&mut full, &suffix);
    }
    lookup(translator, string_of(&full).as_str())
}

} // verus!
