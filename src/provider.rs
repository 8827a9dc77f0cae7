use vstd::prelude::*;

use crate::language::{text_equals, Language};

verus! {

/// An account with the translation provider, carried through unread.
#[verifier::external_type_specification]
#[verifier::external_body]
pub struct ExDeepL(deepl_api::DeepL);

/// The provider's request flags, carried through unread.
#[verifier::external_type_specification]
#[verifier::external_body]
pub struct ExTranslationOptions(deepl_api::TranslationOptions);

/// A connection to the translation provider, its flags, and the languages it translates into.
pub struct DeepLContext {
    pub api_connection: deepl_api::DeepL,
    pub translation_options: deepl_api::TranslationOptions,
    pub available_target_langs: Vec<Language>,
}

impl DeepLContext {
    /// The first available target language with the code `language_code`, if any.
    pub fn get_target_language_if_available(&self, language_code: &str) -> (r: Option<Language>)
        ensures
            r is None <==> forall|j: int|
                0 <= j < self.available_target_langs@.len()
                    ==> (#[trigger] self.available_target_langs@[j]).code@ != language_code@,
            r matches Some(l) ==> exists|j: int|
                0 <= j < self.available_target_langs@.len() && self.available_target_langs@[j]
                    == l && l.code@ == language_code@ && forall|q: int|
                    0 <= q < j ==> (#[trigger] self.available_target_langs@[q]).code@
                        != language_code@,
    {
        let n = self.available_target_langs.len();
        let mut i: usize = 0;
        while i < n
            invariant
                n == self.available_target_langs@.len(),
                i <= n,
                forall|q: int|
                    0 <= q < i ==> (#[trigger] self.available_target_langs@[q]).code@
                        != language_code@,
            decreases n - i,
        {
            if text_equals(self.available_target_langs[i].code.as_str(), language_code) {
                return Some(self.available_target_langs[i].clone());
            }
            i = i + 1;
        }
        None
    }
}

} // verus!
