//! Items shared by both translation-file kinds: the kind itself and message statistics.

use vstd::prelude::*;
use crate::text::{
    ascii_lower, extension_of, extension_spec, file_name_of, file_name_spec, has_extension,
    str_eq, to_ascii_lower,
};

verus! {

/// The two supported translation-file kinds.
#[derive(Debug, Clone, Copy, PartialEq, Eq, Structural)]
pub enum I18nFileKind {
    /// Qt Linguist translation file format (.ts)
    Linguist,
    /// GNU Gettext translation file format (.po)
    Gettext,
}

/// An extension that names no supported kind; `ext` is the lower-cased extension.
#[derive(Debug, Clone)]
pub struct UnknownI18nFileExtError {
    pub ext: String,
}

/// The lower-cased extension of the file name of `path`, empty when it has none.
pub open spec fn ext_hint(path: Seq<char>) -> Seq<char> {
    if has_extension(file_name_spec(path)) {
        ascii_lower(extension_spec(file_name_spec(path)))
    } else {
        Seq::empty()
    }
}

/// The kind that a lower-cased extension names.
pub open spec fn kind_of_ext(ext: Seq<char>) -> Option<I18nFileKind> {
    if ext == seq!['t', 's'] {
        Some(I18nFileKind::Linguist)
    } else if ext == seq!['p', 'o'] || ext == seq!['p', 'o', 't'] {
        Some(I18nFileKind::Gettext)
    } else {
        None
    }
}

impl I18nFileKind {
    /// Detects the kind from the extension of the path's file name, ignoring ASCII case:
    /// `ts` is Linguist; `po` and `pot` are Gettext; anything else is an error.
    pub fn from_ext_hint(path_hint: &str) -> (r: Result<Self, UnknownI18nFileExtError>)
        ensures
            r is Ok <==> kind_of_ext(ext_hint(path_hint@)) is Some,
            r is Ok ==> Some(r->Ok_0) == kind_of_ext(ext_hint(path_hint@)),
            r is Err ==> r->Err_0.ext@ == ext_hint(path_hint@),
    {
        let name = file_name_of(path_hint);
        let ext = match extension_of(name) {
            Some(e) => to_ascii_lower(e),
            None => String::new(),
        };
        proof {
            reveal_strlit("ts");
            reveal_strlit("po");
            reveal_strlit("pot");
            assert("ts"@ =~= seq!['t', 's']);
            assert("po"@ =~= seq!['p', 'o']);
            assert("pot"@ =~= seq!['p', 'o', 't']);
            assert(ext@ == ext_hint(path_hint@));
        }
        if str_eq(ext.as_str(), "ts") {
            Ok(I18nFileKind::Linguist)
        } else if str_eq(ext.as_str(), "po") || str_eq(ext.as_str(), "pot") {
            Ok(I18nFileKind::Gettext)
        } else {
            Err(UnknownI18nFileExtError { ext })
        }
    }
}

/// Message counts of a document, by status.
///
/// Linguist entries are finished, unfinished, vanished or obsolete; Gettext entries
/// are finished, unfinished or fuzzy.
#[derive(Debug, Clone, Copy, PartialEq, Eq, Structural)]
pub struct MessageStats {
    /// Entries whose source text has been translated.
    pub finished: u64,
    /// Entries not translated yet.
    pub unfinished: u64,
    /// Linguist entries whose source text no longer exists.
    pub vanished: u64,
    /// Linguist entries whose source text no longer exists.
    pub obsolete: u64,
    /// Gettext entries whose translation may no longer fit a changed source text.
    pub fuzzy: u64,
}

impl MessageStats {
    pub fn new() -> (r: Self)
        ensures
            r == (MessageStats { finished: 0, unfinished: 0, vanished: 0, obsolete: 0, fuzzy: 0 }),
    {
        MessageStats { finished: 0, unfinished: 0, vanished: 0, obsolete: 0, fuzzy: 0 }
    }

    /// The "Translated" value of a report.
    pub fn shown_translated(&self) -> (r: u64)
        ensures
            r == self.finished,
    {
        self.finished
    }

    /// The "Unfinished" value of a report: fuzzy entries count as unfinished.
    pub fn shown_unfinished(&self) -> (r: u64)
        requires
            self.unfinished + self.fuzzy <= u64::MAX,
        ensures
            r == self.unfinished + self.fuzzy,
    {
        self.unfinished + self.fuzzy
    }

    /// The "Obsolete" value of a report: vanished entries count as obsolete.
    pub fn shown_obsolete(&self) -> (r: u64)
        requires
            self.obsolete + self.vanished <= u64::MAX,
        ensures
            r == self.obsolete + self.vanished,
    {
        self.obsolete + self.vanished
    }

    /// Whether adding `rhs` field by field stays within `u64`.
    pub open spec fn can_add(&self, rhs: &Self) -> bool {
        &&& self.finished + rhs.finished <= u64::MAX
        &&& self.unfinished + rhs.unfinished <= u64::MAX
        &&& self.vanished + rhs.vanished <= u64::MAX
        &&& self.obsolete + rhs.obsolete <= u64::MAX
        &&& self.fuzzy + rhs.fuzzy <= u64::MAX
    }

    /// Adds `rhs` field by field.
    pub fn add_stats(&mut self, rhs: &Self)
        requires
            old(self).can_add(rhs),
        ensures
            final(self).finished == old(self).finished + rhs.finished,
            final(self).unfinished == old(self).unfinished + rhs.unfinished,
            final(self).vanished == old(self).vanished + rhs.vanished,
            final(self).obsolete == old(self).obsolete + rhs.obsolete,
            final(self).fuzzy == old(self).fuzzy + rhs.fuzzy,
    {
        self.finished = self.finished + rhs.finished;
        self.unfinished = self.unfinished + rhs.unfinished;
        self.vanished = self.vanished + rhs.vanished;
        self.obsolete = self.obsolete + rhs.obsolete;
        self.fuzzy = self.fuzzy + rhs.fuzzy;
    }
}

} // verus!
