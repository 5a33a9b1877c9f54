//! Translation tasks and their validation.
use vstd::prelude::*;
use crate::error::ConfigError;
use crate::text::{chars_of, push_str_chars, string_of};

verus! {

/// `base` and `name` joined by a `/`, unless `base` is empty or already
/// ends with one.
pub open spec fn path_join(base: Seq<char>, name: Seq<char>) -> Seq<char> {
    if base.len() == 0 {
        name
    } else if base.last() == '/' {
        base + name
    } else {
        base + seq!['/'] + name
    }
}

fn join_path(base: &str, name: &str) -> (r: String)
    ensures
        r@ == path_join(base@, name@),
{
    let b = chars_of(base);
    if b.len() == 0 {
        return name.to_owned();
    }
    let mut out: Vec<char> = Vec::new();
    crate::text::push_all(&mut out, b.as_slice());
    if b[b.len() - 1] != '/' {
        out.push('/');
    }
    push_str_chars(&mut out, name);
    assert(out@ =~= path_join(base@, name@));
    string_of(out.as_slice())
}

/// One job: translate the files of `localisation_dir/source_lang` into each
/// target language, with the named glossaries.
#[derive(Debug, Clone)]
pub struct TranslationTask {
    pub source_lang: String,
    pub target_langs: Vec<String>,
    pub glossaries: Vec<String>,
    pub localisation_dir: String,
}

impl TranslationTask {
    /// Checks the task before it runs: the source language and at least
    /// one target language are given, and the localisation directory and
    /// its source-language directory exist (whether they exist is passed in).
    pub fn validate(&self, dir_exists: bool, source_dir_exists: bool) -> (r: Result<(), ConfigError>)
        ensures
            r is Ok <==> self.source_lang@.len() > 0 && self.target_langs@.len() > 0 && dir_exists
                && source_dir_exists,
            self.source_lang@.len() == 0 ==> (r matches Err(ConfigError::MissingField(f)) && f@
                == "source_lang"@),
            self.source_lang@.len() > 0 && self.target_langs@.len() == 0 ==> (r matches Err(
                ConfigError::MissingField(f),
            ) && f@ == "target_lang"@),
            self.source_lang@.len() > 0 && self.target_langs@.len() > 0 && !(dir_exists
                && source_dir_exists) ==> r matches Err(ConfigError::InvalidPath(_)),
    {
        let sl = chars_of(self.source_lang.as_str());
        if sl.len() == 0 {
            return Err(ConfigError::MissingField("source_lang".to_owned()));
        }
        if self.target_langs.len() == 0 {
            return Err(ConfigError::MissingField("target_lang".to_owned()));
        }
        if !dir_exists {
            let mut m: Vec<char> = Vec::new();
            push_str_chars(&mut m, "本地化目录不存在: ");
            push_str_chars(&mut m, self.localisation_dir.as_str());
            return Err(ConfigError::InvalidPath(string_of(m.as_slice())));
        }
        if !source_dir_exists {
            let mut m: Vec<char> = Vec::new();
            push_str_chars(&mut m, "源语言目录不存在: ");
            let d = self.source_dir();
            push_str_chars(&mut m, d.as_str());
            return Err(ConfigError::InvalidPath(string_of(m.as_slice())));
        }
        Ok(())
    }

    /// The directory of the source files: `localisation_dir/source_lang`.
    pub fn source_dir(&self) -> (r: String)
        ensures
            r@ == path_join(self.localisation_dir@, self.source_lang@),
    {
        join_path(self.localisation_dir.as_str(), self.source_lang.as_str())
    }

    /// The output directory for `target_lang`:
    /// `localisation_dir/target_lang/replace`.
    pub fn target_dir(&self, target_lang: &str) -> (r: String)
        ensures
            r@ == path_join(path_join(self.localisation_dir@, target_lang@), "replace"@),
    {
        let d = join_path(self.localisation_dir.as_str(), target_lang);
        join_path(d.as_str(), "replace")
    }
}

/// How many chunk requests of a batch may be in flight at once.
#[derive(Debug, Clone, Copy)]
pub struct TranslationBatcher {
    pub max_concurrent: usize,
}

impl TranslationBatcher {
    /// A batcher that allows `max_concurrent` requests at once.
    pub fn new(max_concurrent: usize) -> (r: TranslationBatcher)
        ensures
            r.max_concurrent == max_concurrent,
    {
        TranslationBatcher { max_concurrent }
    }
}

} // verus!
