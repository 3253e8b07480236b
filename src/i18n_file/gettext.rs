//! The GNU Gettext catalog: a flat list of messages whose status follows from
//! whether they are translated and whether they carry the fuzzy flag.

use vstd::prelude::*;
use super::common::MessageStats;

verus! {

/// One catalog entry.
#[derive(Debug, Clone)]
pub struct PoMessage {
    pub msgid: String,
    /// The translation of a singular entry.
    pub msgstr: String,
    /// The translations of a plural entry, one per form.
    pub msgstr_plural: Vec<String>,
    pub is_plural: bool,
    pub is_fuzzy: bool,
}

/// A Gettext catalog: its language and its entries in file order.
#[derive(Debug, Clone)]
pub struct Po {
    pub language: String,
    pub messages: Vec<PoMessage>,
}

/// A singular entry is translated when its text is not empty; a plural entry
/// when none of its forms is empty.
pub open spec fn po_translated(m: PoMessage) -> bool {
    if m.is_plural {
        forall|k: int| 0 <= k < m.msgstr_plural@.len() ==> (#[trigger] m.msgstr_plural@[k])@.len() > 0
    } else {
        m.msgstr@.len() > 0
    }
}

/// The bucket an entry is counted in: 0 finished, 1 fuzzy, 2 unfinished.
pub open spec fn po_bucket(m: PoMessage) -> int {
    if po_translated(m) {
        0
    } else if m.is_fuzzy {
        1
    } else {
        2
    }
}

/// How many of `ms` fall in bucket `b`.
pub open spec fn bucket_count(ms: Seq<PoMessage>, b: int) -> nat
    decreases ms.len(),
{
    if ms.len() == 0 {
        0
    } else {
        bucket_count(ms.drop_last(), b) + if po_bucket(ms.last()) == b {
            1nat
        } else {
            0nat
        }
    }
}

proof fn lemma_bucket_step(ms: Seq<PoMessage>, j: int, b: int)
    requires
        0 <= j < ms.len(),
    ensures
        bucket_count(ms.take(j + 1), b) == bucket_count(ms.take(j), b) + if po_bucket(ms[j]) == b {
            1nat
        } else {
            0nat
        },
        bucket_count(ms.take(j), b) <= j,
    decreases j,
{
    assert(ms.take(j + 1).drop_last() =~= ms.take(j));
    if j > 0 {
        lemma_bucket_step(ms, j - 1, b);
    } else {
        assert(ms.take(0) =~= Seq::<PoMessage>::empty());
    }
}

/// `new` is `old`, except that its singular text is `text`.
pub open spec fn po_with_text(old: PoMessage, new: PoMessage, text: Seq<char>) -> bool {
    &&& new.msgstr@ == text
    &&& new.msgid == old.msgid
    &&& new.msgstr_plural == old.msgstr_plural
    &&& new.is_plural == old.is_plural
    &&& new.is_fuzzy == old.is_fuzzy
}

/// `r` is `fallback` for language `code` with nothing translated: every
/// translated singular entry emptied, all else kept.
pub open spec fn po_is_bootstrap(fallback: Po, code: Seq<char>, r: Po) -> bool {
    &&& r.language@ == code
    &&& r.messages@.len() == fallback.messages@.len()
    &&& forall|i: int|
        0 <= i < fallback.messages@.len() ==> {
            let (o, m) = (fallback.messages@[i], #[trigger] r.messages@[i]);
            if po_translated(o) && !o.is_plural {
                po_with_text(o, m, Seq::empty())
            } else {
                m == o
            }
        }
}

impl PoMessage {
    pub fn is_translated(&self) -> (r: bool)
        ensures
            r == po_translated(*self),
    {
        if self.is_plural {
            let n = self.msgstr_plural.len();
            let mut k: usize = 0;
            while k < n
                invariant
                    self.is_plural,
                    n == self.msgstr_plural@.len(),
                    k <= n,
                    forall|l: int| 0 <= l < k ==> (#[trigger] self.msgstr_plural@[l])@.len() > 0,
                decreases n - k,
            {
                if self.msgstr_plural[k].as_str().unicode_len() == 0 {
                    assert(self.msgstr_plural@[k as int]@.len() == 0);
                    return false;
                }
                k = k + 1;
            }
            true
        } else {
            self.msgstr.as_str().unicode_len() > 0
        }
    }

    /// Replaces the singular text.
    pub fn set_msgstr(&mut self, text: String)
        ensures
            po_with_text(*old(self), *final(self), text@),
    {
        self.msgstr = text;
    }
}

impl Po {
    /// Empties the text of every translated singular entry.
    pub fn clear_finished_messages(&mut self)
        ensures
            final(self).language == old(self).language,
            final(self).messages@.len() == old(self).messages@.len(),
            forall|i: int|
                0 <= i < old(self).messages@.len() ==> {
                    let (o, m) = (old(self).messages@[i], #[trigger] final(self).messages@[i]);
                    if po_translated(o) && !o.is_plural {
                        po_with_text(o, m, Seq::empty())
                    } else {
                        m == o
                    }
                },
    {
        let n = self.messages.len();
        let mut i: usize = 0;
        while i < n
            invariant
                n == self.messages@.len(),
                n == old(self).messages@.len(),
                i <= n,
                self.language == old(self).language,
                forall|k: int|
                    0 <= k < i ==> {
                        let (o, m) = (old(self).messages@[k], #[trigger] self.messages@[k]);
                        if po_translated(o) && !o.is_plural {
                            po_with_text(o, m, Seq::empty())
                        } else {
                            m == o
                        }
                    },
                forall|k: int| i <= k < n ==> #[trigger] self.messages@[k] == old(self).messages@[k],
            decreases n - i,
        {
            if self.messages[i].is_translated() && !self.messages[i].is_plural {
                self.messages[i].set_msgstr(String::new());
            }
            i = i + 1;
        }
    }

    pub fn get_language(&self) -> (r: String)
        ensures
            r == self.language,
    {
        self.language.clone()
    }

    pub fn set_language(&mut self, language: &str)
        ensures
            final(self).language@ == language@,
            final(self).messages == old(self).messages,
    {
        self.language = String::from_str(language);
    }

    /// Counts the entries: translated ones are finished, untranslated fuzzy ones
    /// fuzzy, the rest unfinished; Gettext has no vanished or obsolete entries.
    pub fn get_message_stats(&self) -> (r: MessageStats)
        ensures
            r.finished == bucket_count(self.messages@, 0),
            r.fuzzy == bucket_count(self.messages@, 1),
            r.unfinished == bucket_count(self.messages@, 2),
            r.vanished == 0,
            r.obsolete == 0,
    {
        let ghost ms = self.messages@;
        let mut stats = MessageStats::new();
        let n = self.messages.len();
        let mut i: usize = 0;
        assert(ms.take(0) =~= Seq::<PoMessage>::empty());
        while i < n
            invariant
                ms == self.messages@,
                n == ms.len(),
                i <= n,
                stats.finished == bucket_count(ms.take(i as int), 0),
                stats.fuzzy == bucket_count(ms.take(i as int), 1),
                stats.unfinished == bucket_count(ms.take(i as int), 2),
                stats.vanished == 0,
                stats.obsolete == 0,
            decreases n - i,
        {
            proof {
                lemma_bucket_step(ms, i as int, 0);
                lemma_bucket_step(ms, i as int, 1);
                lemma_bucket_step(ms, i as int, 2);
            }
            if self.messages[i].is_translated() {
                stats.finished = stats.finished + 1;
            } else if self.messages[i].is_fuzzy {
                stats.fuzzy = stats.fuzzy + 1;
            } else {
                stats.unfinished = stats.unfinished + 1;
            }
            i = i + 1;
        }
        assert(ms.take(n as int) =~= ms);
        stats
    }

    /// The target catalog for a language: `existing` when the file was there, else
    /// `fallback` for `fallback_language_code` with every translated singular entry
    /// emptied.
    pub fn load_from_file_or_default(existing: Option<Po>, fallback: Po, fallback_language_code: &str) -> (r: Po)
        ensures
            existing is Some ==> r == existing->0,
            existing is None ==> po_is_bootstrap(fallback, fallback_language_code@, r),
    {
        match existing {
            Some(po) => po,
            None => {
                let mut po = fallback;
                po.set_language(fallback_language_code);
                po.clear_finished_messages();
                po
            },
        }
    }
}

} // verus!
