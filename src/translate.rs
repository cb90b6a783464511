//! Interface languages and the lookup of translated texts.
use vstd::prelude::*;
use crate::text::str_eq;

verus! {

/// A language of the interface.
#[derive(Clone, Copy, Debug, PartialEq, Eq, Structural, Hash)]
pub enum Language {
    English,
    French,
}

impl Default for Language {
    fn default() -> (r: Self)
        ensures
            r == Language::English,
    {
        Language::English
    }
}

impl Language {
    /// The base name of the language's table file.
    pub fn as_file_name(&self) -> (r: &'static str)
        ensures
            r@ == match self {
                Language::English => "en"@,
                Language::French => "fr"@,
            },
    {
        match self {
            Language::English => "en",
            Language::French => "fr",
        }
    }
}

/// A table of texts as (key, text) pairs.
pub type TableModel = Seq<(Seq<char>, Seq<char>)>;

pub open spec fn table_view(t: Seq<(String, String)>) -> TableModel {
    t.map_values(|e: (String, String)| (e.0@, e.1@))
}

/// The text of the first entry for `key`, if any.
pub open spec fn lookup(t: TableModel, key: Seq<char>) -> Option<Seq<char>> {
    if exists|i: int| 0 <= i < t.len() && (#[trigger] t[i]).0 == key {
        Some(
            t[choose|i: int| 0 <= i < t.len() && (#[trigger] t[i]).0 == key && forall|j: int| 0 <= j < i ==> (#[trigger] t[j]).0 != key].1,
        )
    } else {
        None
    }
}

/// Why a language could not be selected.
#[derive(Clone, Copy, Debug, PartialEq, Eq, Structural)]
pub enum LanguageError {
    /// Its table was not loaded and none was supplied.
    TableUnavailable,
}

/// Looks texts up in the current language, falling back to English, then to
/// the key itself.
#[derive(Clone, Debug)]
pub struct Translator {
    current_language: Language,
    english: Vec<(String, String)>,
    french: Option<Vec<(String, String)>>,
}

impl Default for Translator {
    fn default() -> (r: Self)
        ensures
            r.language() == Language::English,
            r.english_table().len() == 0,
            r.french_table() is None,
    {
        Translator { current_language: Language::English, english: Vec::new(), french: None }
    }
}

impl Translator {
    pub closed spec fn language(&self) -> Language {
        self.current_language
    }

    pub closed spec fn english_table(&self) -> TableModel {
        table_view(self.english@)
    }

    pub closed spec fn french_table(&self) -> Option<TableModel> {
        match self.french {
            Some(t) => Some(table_view(t@)),
            None => None,
        }
    }

    /// The table of `language`, if loaded; English always has one.
    pub open spec fn table_for(&self, language: Language) -> Option<TableModel> {
        match language {
            Language::English => Some(self.english_table()),
            Language::French => self.french_table(),
        }
    }

    /// What `translate` returns for `key`.
    pub open spec fn text_for(&self, key: Seq<char>) -> Seq<char> {
        let own = match self.table_for(self.language()) {
            Some(t) => lookup(t, key),
            None => None,
        };
        match own {
            Some(s) => s,
            None => match lookup(self.english_table(), key) {
                Some(s) => s,
                None => key,
            },
        }
    }

    /// A translator in English with no texts loaded.
    pub fn new() -> (r: Self)
        ensures
            r.language() == Language::English,
            r.english_table().len() == 0,
            r.french_table() is None,
    {
        Self::default()
    }

    /// Installs the table of `language`, replacing any earlier one.
    pub fn install_table(&mut self, language: Language, entries: Vec<(String, String)>)
        ensures
            final(self).language() == old(self).language(),
            final(self).table_for(language) == Some(table_view(entries@)),
            language == Language::English ==> final(self).french_table() == old(self).french_table(),
            language == Language::French ==> final(self).english_table() == old(self).english_table(),
    {
        match language {
            Language::English => {
                self.english = entries;
            },
            Language::French => {
                self.french = Some(entries);
            },
        }
    }

    /// Whether selecting `language` needs its table to be supplied.
    pub fn needs_table(&self, language: Language) -> (r: bool)
        ensures
            r == (self.table_for(language) is None),
    {
        match language {
            Language::English => false,
            Language::French => self.french.is_none(),
        }
    }

    /// Selects `language`. English is always available; another language
    /// needs a loaded table, which `loaded` may supply.
    pub fn set_language(&mut self, language: Language, loaded: Option<Vec<(String, String)>>) -> (r: Result<(), LanguageError>)
        ensures
            (old(self).table_for(language) is None && loaded is None) <==> r is Err,
            r is Err ==> *final(self) == *old(self),
            r is Ok ==> final(self).language() == language,
            r is Ok ==> final(self).english_table() == old(self).english_table(),
            r is Ok ==> final(self).table_for(language) == if old(self).table_for(language) is Some {
                old(self).table_for(language)
            } else {
                Some(table_view(loaded->0@))
            },
    {
        if language == Language::English {
            self.current_language = language;
            return Ok(());
        }
        if self.french.is_none() {
            match loaded {
                Some(t) => {
                    self.french = Some(t);
                },
                None => {
                    return Err(LanguageError::TableUnavailable);
                },
            }
        }
        self.current_language = language;
        Ok(())
    }

    /// The selected language.
    pub fn get_language(&self) -> (r: Language)
        ensures
            r == self.language(),
    {
        self.current_language
    }

    /// The text for `key` in the selected language, else in English, else `key`.
    pub fn translate(&self, key: &str) -> (r: String)
        ensures
            r@ == self.text_for(key@),
    {
        if self.current_language == Language::French {
            match &self.french {
                Some(t) => match find_text(t, key) {
                    Some(s) => {
                        return s;
                    },
                    None => {},
                },
                None => {},
            }
        }
        match find_text(&self.english, key) {
            Some(s) => s,
            None => key.to_owned(),
        }
    }

    /// Shorthand for `translate`.
    pub fn t(&self, key: &str) -> (r: String)
        ensures
            r@ == self.text_for(key@),
    {
        self.translate(key)
    }

    /// The languages the interface offers.
    pub fn available_languages() -> (r: Vec<Language>)
        ensures
            r@ == seq![Language::English, Language::French],
    {
        vec![Language::English, Language::French]
    }
}

/// The text of the first entry of `t` for `key`.
fn find_text(t: &Vec<(String, String)>, key: &str) -> (r: Option<String>)
    ensures
        match r {
            Some(s) => lookup(table_view(t@), key@) == Some(s@),
            None => lookup(table_view(t@), key@) is None,
        },
{
    let ghost v = table_view(t@);
    let mut i: usize = 0;
    while i < t.len()
        invariant
            i <= t.len(),
            v == table_view(t@),
            forall|j: int| 0 <= j < i ==> (#[trigger] v[j]).0 != key@,
        decreases t.len() - i,
    {
        if str_eq(t[i].0.as_str(), key) {
            assert(v[i as int].0 == key@);
            let ghost c = choose|k: int| 0 <= k < v.len() && (#[trigger] v[k]).0 == key@ && forall|j: int| 0 <= j < k ==> (#[trigger] v[j]).0 != key@;
            assert(c == i) by {
                if c < i {
                    assert(v[c].0 != key@);
                } else if c > i {
                    assert(v[i as int].0 != key@);
                }
            }
            return Some(t[i].1.clone());
        }
        i = i + 1;
    }
    None
}

} // verus!
