//! The Qt Linguist document: contexts holding messages, each with a translation
//! whose `type` attribute records its status.

use vstd::prelude::*;
use super::common::MessageStats;

verus! {

/// A Linguist document.
#[derive(Debug, Clone)]
pub struct Ts {
    pub language: Option<String>,
    pub version: String,
    pub contexts: Vec<Context>,
}

/// A named group of messages.
#[derive(Debug, Clone)]
pub struct Context {
    pub name: String,
    pub messages: Vec<Message>,
}

/// One entry: a source text and its translation.
#[derive(Debug, Clone)]
pub struct Message {
    pub location: Vec<Location>,
    pub source: String,
    pub translation: Translation,
    pub comment: Option<String>,
    /// Set on plural entries, whose forms sit in `translation.numerus_forms`.
    pub numerus: Option<String>,
}

/// The `type` attribute of a translation; a translation without one is finished.
#[derive(Debug, Clone, Copy, PartialEq, Eq, Structural)]
pub enum TranslationType {
    Unfinished,
    Vanished,
    Obsolete,
}

#[derive(Debug, Clone)]
pub struct Translation {
    pub type_attr: Option<TranslationType>,
    pub value: Option<String>,
    pub numerus_forms: Vec<String>,
}

#[derive(Debug, Clone)]
pub struct Location {
    pub filename: Option<String>,
    pub line: String,
}

/// Plural entries are never filled or cleared.
pub open spec fn is_plural(m: Message) -> bool {
    m.numerus is Some
}

/// The entry as `clear_finished_messages` leaves it: a finished singular entry
/// loses its text and becomes unfinished; any other entry is kept.
pub open spec fn cleared(m: Message) -> Message {
    if m.translation.type_attr is None && !is_plural(m) {
        Message {
            translation: Translation {
                type_attr: Some(TranslationType::Unfinished),
                value: None,
                ..m.translation
            },
            ..m
        }
    } else {
        m
    }
}

/// `new` is `old` with `text` as its finished translation, all else kept.
pub open spec fn is_filled(old: Message, new: Message, text: Seq<char>) -> bool {
    &&& new.translation.type_attr is None
    &&& new.translation.value is Some
    &&& new.translation.value->0@ == text
    &&& new.translation.numerus_forms == old.translation.numerus_forms
    &&& new.location == old.location
    &&& new.source == old.source
    &&& new.comment == old.comment
    &&& new.numerus == old.numerus
}

/// How many of `ms` carry the status `t`.
pub open spec fn status_count(ms: Seq<Message>, t: Option<TranslationType>) -> nat
    decreases ms.len(),
{
    if ms.len() == 0 {
        0
    } else {
        status_count(ms.drop_last(), t) + if ms.last().translation.type_attr == t {
            1nat
        } else {
            0nat
        }
    }
}

/// How many messages of all of `cs` carry the status `t`.
pub open spec fn ctx_status_count(cs: Seq<Context>, t: Option<TranslationType>) -> nat
    decreases cs.len(),
{
    if cs.len() == 0 {
        0
    } else {
        ctx_status_count(cs.drop_last(), t) + status_count(cs.last().messages@, t)
    }
}

/// The number of messages in all of `cs`.
pub open spec fn ctx_total(cs: Seq<Context>) -> nat
    decreases cs.len(),
{
    if cs.len() == 0 {
        0
    } else {
        ctx_total(cs.drop_last()) + cs.last().messages@.len()
    }
}

pub proof fn lemma_status_count_bound(ms: Seq<Message>, t: Option<TranslationType>)
    ensures
        status_count(ms, t) <= ms.len(),
    decreases ms.len(),
{
    if ms.len() > 0 {
        lemma_status_count_bound(ms.drop_last(), t);
    }
}

pub proof fn lemma_status_count_step(ms: Seq<Message>, j: int, t: Option<TranslationType>)
    requires
        0 <= j < ms.len(),
    ensures
        status_count(ms.take(j + 1), t) == status_count(ms.take(j), t) + if ms[j].translation.type_attr
            == t {
            1nat
        } else {
            0nat
        },
{
    assert(ms.take(j + 1).drop_last() =~= ms.take(j));
}

pub proof fn lemma_ctx_count_bound(cs: Seq<Context>, t: Option<TranslationType>)
    ensures
        ctx_status_count(cs, t) <= ctx_total(cs),
    decreases cs.len(),
{
    if cs.len() > 0 {
        lemma_ctx_count_bound(cs.drop_last(), t);
        lemma_status_count_bound(cs.last().messages@, t);
    }
}

pub proof fn lemma_ctx_total_prefix(cs: Seq<Context>, i: int)
    requires
        0 <= i <= cs.len(),
    ensures
        ctx_total(cs.take(i)) <= ctx_total(cs),
    decreases cs.len(),
{
    if i < cs.len() {
        assert(cs.drop_last().take(i) =~= cs.take(i));
        lemma_ctx_total_prefix(cs.drop_last(), i);
    } else {
        assert(cs.take(i) =~= cs);
    }
}

/// `r` is `fallback` for language `code` with nothing translated: every finished
/// singular entry cleared, all else kept.
pub open spec fn is_bootstrap(fallback: Ts, code: Seq<char>, r: Ts) -> bool {
    &&& r.language is Some
    &&& r.language->0@ == code
    &&& r.version == fallback.version
    &&& r.contexts@.len() == fallback.contexts@.len()
    &&& forall|i: int|
        0 <= i < fallback.contexts@.len() ==> {
            &&& (#[trigger] r.contexts@[i]).name == fallback.contexts@[i].name
            &&& r.contexts@[i].messages@ == fallback.contexts@[i].messages@.map_values(|m: Message| cleared(m))
        }
}

impl Message {
    /// Sets `translation` as the finished translation of this entry.
    pub fn fill_translation(&mut self, translation: &str)
        ensures
            is_filled(*old(self), *final(self), translation@),
    {
        self.translation.value = Some(String::from_str(translation));
        self.translation.type_attr = None;
    }

    /// Clears a finished singular entry: it loses its text and becomes unfinished.
    pub fn clear_if_finished(&mut self)
        ensures
            *final(self) == cleared(*old(self)),
    {
        if self.translation.type_attr.is_none() && self.numerus.is_none() {
            self.translation.value = None;
            self.translation.type_attr = Some(TranslationType::Unfinished);
        }
    }
}

impl Ts {
    /// The messages of all contexts, context by context.
    pub open spec fn message_count(&self) -> nat {
        ctx_total(self.contexts@)
    }

    /// Marks every finished singular entry unfinished and drops its text.
    pub fn clear_finished_messages(&mut self)
        ensures
            final(self).language == old(self).language,
            final(self).version == old(self).version,
            final(self).contexts@.len() == old(self).contexts@.len(),
            forall|i: int|
                0 <= i < old(self).contexts@.len() ==> {
                    &&& (#[trigger] final(self).contexts@[i]).name == old(self).contexts@[i].name
                    &&& final(self).contexts@[i].messages@ == old(self).contexts@[i].messages@.map_values(
                        |m: Message| cleared(m),
                    )
                },
    {
        let n = self.contexts.len();
        let mut i: usize = 0;
        while i < n
            invariant
                n == old(self).contexts@.len(),
                n == self.contexts@.len(),
                i <= n,
                self.language == old(self).language,
                self.version == old(self).version,
                forall|k: int|
                    0 <= k < i ==> {
                        &&& (#[trigger] self.contexts@[k]).name == old(self).contexts@[k].name
                        &&& self.contexts@[k].messages@ == old(self).contexts@[k].messages@.map_values(
                            |m: Message| cleared(m),
                        )
                    },
                forall|k: int| i <= k < n ==> #[trigger] self.contexts@[k] == old(self).contexts@[k],
            decreases n - i,
        {
            let m = self.contexts[i].messages.len();
            let mut j: usize = 0;
            while j < m
                invariant
                    n == self.contexts@.len(),
                    i < n,
                    m == self.contexts@[i as int].messages@.len(),
                    m == old(self).contexts@[i as int].messages@.len(),
                    j <= m,
                    self.language == old(self).language,
                    self.version == old(self).version,
                    self.contexts@[i as int].name == old(self).contexts@[i as int].name,
                    forall|l: int|
                        0 <= l < j ==> #[trigger] self.contexts@[i as int].messages@[l] == cleared(
                            old(self).contexts@[i as int].messages@[l],
                        ),
                    forall|l: int|
                        j <= l < m ==> #[trigger] self.contexts@[i as int].messages@[l]
                            == old(self).contexts@[i as int].messages@[l],
                    forall|k: int|
                        0 <= k < i ==> {
                            &&& (#[trigger] self.contexts@[k]).name == old(self).contexts@[k].name
                            &&& self.contexts@[k].messages@ == old(
                                self,
                            ).contexts@[k].messages@.map_values(|m: Message| cleared(m))
                        },
                    forall|k: int|
                        i < k < n ==> #[trigger] self.contexts@[k] == old(self).contexts@[k],
                decreases m - j,
            {
                self.contexts[i].messages[j].clear_if_finished();
                j = j + 1;
            }
            assert(self.contexts@[i as int].messages@ =~= old(
                self,
            ).contexts@[i as int].messages@.map_values(|m: Message| cleared(m)));
            i = i + 1;
        }
    }

    /// Counts the entries by status; Linguist has no fuzzy entries.
    pub fn get_message_stats(&self) -> (r: MessageStats)
        requires
            self.message_count() <= u64::MAX,
        ensures
            r.finished == ctx_status_count(self.contexts@, None),
            r.unfinished == ctx_status_count(self.contexts@, Some(TranslationType::Unfinished)),
            r.vanished == ctx_status_count(self.contexts@, Some(TranslationType::Vanished)),
            r.obsolete == ctx_status_count(self.contexts@, Some(TranslationType::Obsolete)),
            r.fuzzy == 0,
    {
        let ghost cs = self.contexts@;
        let ghost fin: Option<TranslationType> = None;
        let ghost unf = Some(TranslationType::Unfinished);
        let ghost van = Some(TranslationType::Vanished);
        let ghost obs = Some(TranslationType::Obsolete);
        let mut finished: u64 = 0;
        let mut unfinished: u64 = 0;
        let mut vanished: u64 = 0;
        let mut obsolete: u64 = 0;
        let n = self.contexts.len();
        let mut i: usize = 0;
        assert(cs.take(0) =~= Seq::<Context>::empty());
        while i < n
            invariant
                cs == self.contexts@,
                fin == None::<TranslationType>,
                unf == Some(TranslationType::Unfinished),
                van == Some(TranslationType::Vanished),
                obs == Some(TranslationType::Obsolete),
                n == cs.len(),
                i <= n,
                ctx_total(cs) <= u64::MAX,
                finished == ctx_status_count(cs.take(i as int), fin),
                unfinished == ctx_status_count(cs.take(i as int), unf),
                vanished == ctx_status_count(cs.take(i as int), van),
                obsolete == ctx_status_count(cs.take(i as int), obs),
            decreases n - i,
        {
            let messages = &self.contexts[i].messages;
            let ghost ms = messages@;
            proof {
                lemma_ctx_total_prefix(cs, i + 1);
                assert(cs.take(i + 1).drop_last() =~= cs.take(i as int));
                lemma_ctx_count_bound(cs.take(i as int), fin);
                lemma_ctx_count_bound(cs.take(i as int), unf);
                lemma_ctx_count_bound(cs.take(i as int), van);
                lemma_ctx_count_bound(cs.take(i as int), obs);
            }
            let m = messages.len();
            let mut j: usize = 0;
            assert(ms.take(0) =~= Seq::<Message>::empty());
            while j < m
                invariant
                    ms == messages@,
                    fin == None::<TranslationType>,
                    unf == Some(TranslationType::Unfinished),
                    van == Some(TranslationType::Vanished),
                    obs == Some(TranslationType::Obsolete),
                    m == ms.len(),
                    j <= m,
                    ctx_total(cs.take(i as int)) + m <= u64::MAX,
                    finished == ctx_status_count(cs.take(i as int), fin) + status_count(ms.take(j as int), fin),
                    unfinished == ctx_status_count(cs.take(i as int), unf) + status_count(ms.take(j as int), unf),
                    vanished == ctx_status_count(cs.take(i as int), van) + status_count(ms.take(j as int), van),
                    obsolete == ctx_status_count(cs.take(i as int), obs) + status_count(ms.take(j as int), obs),
                    ctx_status_count(cs.take(i as int), fin) <= ctx_total(cs.take(i as int)),
                    ctx_status_count(cs.take(i as int), unf) <= ctx_total(cs.take(i as int)),
                    ctx_status_count(cs.take(i as int), van) <= ctx_total(cs.take(i as int)),
                    ctx_status_count(cs.take(i as int), obs) <= ctx_total(cs.take(i as int)),
                decreases m - j,
            {
                proof {
                    lemma_status_count_step(ms, j as int, fin);
                    lemma_status_count_step(ms, j as int, unf);
                    lemma_status_count_step(ms, j as int, van);
                    lemma_status_count_step(ms, j as int, obs);
                    lemma_status_count_bound(ms.take(j as int), fin);
                    lemma_status_count_bound(ms.take(j as int), unf);
                    lemma_status_count_bound(ms.take(j as int), van);
                    lemma_status_count_bound(ms.take(j as int), obs);
                }
                match messages[j].translation.type_attr {
                    Some(TranslationType::Unfinished) => {
                        unfinished = unfinished + 1;
                    },
                    Some(TranslationType::Vanished) => {
                        vanished = vanished + 1;
                    },
                    Some(TranslationType::Obsolete) => {
                        obsolete = obsolete + 1;
                    },
                    None => {
                        finished = finished + 1;
                    },
                }
                j = j + 1;
            }
            assert(ms.take(m as int) =~= ms);
            i = i + 1;
        }
        assert(cs.take(n as int) =~= cs);
        MessageStats { finished, unfinished, vanished, obsolete, fuzzy: 0 }
    }

    /// The target document for a language: `existing` when the file was there, else a
    /// copy of `fallback` for `fallback_language_code` with every finished singular
    /// entry cleared, as nothing has been translated into that language yet.
    pub fn load_from_file_or_default(
        existing: Option<Ts>,
        fallback: Ts,
        fallback_language_code: &str,
    ) -> (r: Ts)
        ensures
            existing is Some ==> r == existing->0,
            existing is None ==> is_bootstrap(fallback, fallback_language_code@, r),
    {
        match existing {
            Some(ts) => ts,
            None => {
                let mut ts = fallback;
                ts.set_language(fallback_language_code);
                ts.clear_finished_messages();
                ts
            },
        }
    }

    pub fn get_language(&self) -> (r: Option<String>)
        ensures
            r == self.language,
    {
        match &self.language {
            Some(l) => Some(l.clone()),
            None => None,
        }
    }

    pub fn set_language(&mut self, language: &str)
        ensures
            final(self).language is Some,
            final(self).language->0@ == language@,
            final(self).version == old(self).version,
            final(self).contexts == old(self).contexts,
    {
        self.language = Some(String::from_str(language));
    }
}

} // verus!
