use vstd::prelude::*;

verus! {

/// A localised string: one entry per language the catalog ships, each empty
/// when the catalog leaves it out.
#[derive(Debug, Eq)]
pub struct TranslatedText {
    pub english: String,
    pub german: String,
    pub french: String,
    pub italian: String,
    pub koreana: String,
    pub spanish: String,
    pub schinese: String,
    pub tchinese: String,
    pub russian: String,
    pub thai: String,
    pub japanese: String,
    pub portuguese: String,
    pub polish: String,
    pub danish: String,
    pub dutch: String,
    pub finnish: String,
    pub norwegian: String,
    pub swedish: String,
    pub hungarian: String,
    pub czech: String,
    pub romanian: String,
    pub turkish: String,
    pub brazilian: String,
    pub bulgarian: String,
    pub greek: String,
    pub ukrainian: String,
    pub latam: String,
    pub vietnamese: String,
}

impl Clone for TranslatedText {
    fn clone(&self) -> (r: Self)
        ensures
            r == *self,
    {
        TranslatedText {
            english: self.english.clone(),
            german: self.german.clone(),
            french: self.french.clone(),
            italian: self.italian.clone(),
            koreana: self.koreana.clone(),
            spanish: self.spanish.clone(),
            schinese: self.schinese.clone(),
            tchinese: self.tchinese.clone(),
            russian: self.russian.clone(),
            thai: self.thai.clone(),
            japanese: self.japanese.clone(),
            portuguese: self.portuguese.clone(),
            polish: self.polish.clone(),
            danish: self.danish.clone(),
            dutch: self.dutch.clone(),
            finnish: self.finnish.clone(),
            norwegian: self.norwegian.clone(),
            swedish: self.swedish.clone(),
            hungarian: self.hungarian.clone(),
            czech: self.czech.clone(),
            romanian: self.romanian.clone(),
            turkish: self.turkish.clone(),
            brazilian: self.brazilian.clone(),
            bulgarian: self.bulgarian.clone(),
            greek: self.greek.clone(),
            ukrainian: self.ukrainian.clone(),
            latam: self.latam.clone(),
            vietnamese: self.vietnamese.clone(),
        }
    }
}

/// Two texts are the same when their English versions are.
impl PartialEq for TranslatedText {
    fn eq(&self, other: &TranslatedText) -> (r: bool) {
        self.english == other.english
    }
}

impl vstd::std_specs::cmp::PartialEqSpecImpl for TranslatedText {
    open spec fn obeys_eq_spec() -> bool {
        true
    }

    open spec fn eq_spec(&self, other: &TranslatedText) -> bool {
        self.english@ == other.english@
    }
}

} // verus!
