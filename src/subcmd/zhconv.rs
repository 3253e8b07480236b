//! Propagation of translations from a source document into target documents of
//! other Chinese script variants, converting each text on the way.

use vstd::prelude::*;
use crate::i18n_file::gettext::{Po, PoMessage, po_is_bootstrap, po_translated, po_with_text};
use crate::i18n_file::linguist::{Message, Ts, TranslationType, is_bootstrap, is_filled, is_plural};
use crate::text::{
    ascii_lower, file_name_of, file_name_spec, lemma_last_index, replace_all, replace_str, seq_contains,
    str_contains,
};
use ::zhconv::Variant as OuterVariant;

verus! {

/// The Chinese variants that texts can be converted to.
#[derive(Debug, Clone, Copy, PartialEq, Eq, Structural)]
pub enum ZhVariant {
    Zh,
    ZhHant,
    ZhHans,
    ZhTW,
    ZhHK,
    ZhMO,
    ZhMY,
    ZhSG,
    ZhCN,
}

/// The variant that a language tag names, ASCII case ignored.
pub open spec fn variant_of_tag(tag: Seq<char>) -> Option<ZhVariant> {
    let t = ascii_lower(tag);
    if t == seq!['z', 'h'] {
        Some(ZhVariant::Zh)
    } else if t == seq!['z', 'h', '-', 'h', 'a', 'n', 't'] {
        Some(ZhVariant::ZhHant)
    } else if t == seq!['z', 'h', '-', 'h', 'a', 'n', 's'] {
        Some(ZhVariant::ZhHans)
    } else if t == seq!['z', 'h', '-', 't', 'w'] {
        Some(ZhVariant::ZhTW)
    } else if t == seq!['z', 'h', '-', 'h', 'k'] {
        Some(ZhVariant::ZhHK)
    } else if t == seq!['z', 'h', '-', 'm', 'o'] {
        Some(ZhVariant::ZhMO)
    } else if t == seq!['z', 'h', '-', 'm', 'y'] {
        Some(ZhVariant::ZhMY)
    } else if t == seq!['z', 'h', '-', 's', 'g'] {
        Some(ZhVariant::ZhSG)
    } else if t == seq!['z', 'h', '-', 'c', 'n'] {
        Some(ZhVariant::ZhCN)
    } else {
        None
    }
}

/// The text that the converter makes of `text` for `target`.
pub uninterp spec fn converted(text: Seq<char>, target: ZhVariant) -> Seq<char>;

/// Relies on zhconv's `FromStr` for `Variant` (derived by strum with kebab-case
/// names, ASCII case ignored) to read a language tag.
#[verifier::external_body]
fn parse_variant(tag: &str) -> (r: Option<ZhVariant>)
    ensures
        r == variant_of_tag(tag@),
{
    match tag.parse::<OuterVariant>() {
        Ok(OuterVariant::Zh) => Some(ZhVariant::Zh),
        Ok(OuterVariant::ZhHant) => Some(ZhVariant::ZhHant),
        Ok(OuterVariant::ZhHans) => Some(ZhVariant::ZhHans),
        Ok(OuterVariant::ZhTW) => Some(ZhVariant::ZhTW),
        Ok(OuterVariant::ZhHK) => Some(ZhVariant::ZhHK),
        Ok(OuterVariant::ZhMO) => Some(ZhVariant::ZhMO),
        Ok(OuterVariant::ZhMY) => Some(ZhVariant::ZhMY),
        Ok(OuterVariant::ZhSG) => Some(ZhVariant::ZhSG),
        Ok(OuterVariant::ZhCN) => Some(ZhVariant::ZhCN),
        Err(_) => None,
    }
}

/// Relies on `zhconv::zhconv`: converts a text to the given variant; the result
/// depends on the text and the variant alone.
#[verifier::external_body]
fn convert_text(text: &str, target: ZhVariant) -> (r: String)
    ensures
        r@ == converted(text@, target),
{
    let v = match target {
        ZhVariant::Zh => OuterVariant::Zh,
        ZhVariant::ZhHant => OuterVariant::ZhHant,
        ZhVariant::ZhHans => OuterVariant::ZhHans,
        ZhVariant::ZhTW => OuterVariant::ZhTW,
        ZhVariant::ZhHK => OuterVariant::ZhHK,
        ZhVariant::ZhMO => OuterVariant::ZhMO,
        ZhVariant::ZhMY => OuterVariant::ZhMY,
        ZhVariant::ZhSG => OuterVariant::ZhSG,
        ZhVariant::ZhCN => OuterVariant::ZhCN,
    };
    ::zhconv::zhconv(text, v)
}

/// Why a propagation stopped.
#[derive(Debug, Clone, PartialEq, Eq)]
pub enum CmdError {
    /// The target for this language has another number of contexts than the source.
    DifferentContexts(String),
    /// The target for this language has another number of messages than the source
    /// (source count, target count) in the first context where they differ.
    DifferentMessages(String, usize, usize),
    /// The target language does not name a convertible variant.
    ParseLanguageCode,
    /// The target Linguist document has no language.
    MissingLanguageCode,
    /// Source and target are documents of different kinds.
    MismatchedI18nFileType,
}

/// A language code with `_` written as `-`, as language tags have it.
pub open spec fn tag_of_code(code: Seq<char>) -> Seq<char> {
    replace_all(code, seq!['_'], seq!['-'])
}

/// The variant that a language code names.
pub open spec fn variant_of_code(code: Seq<char>) -> Option<ZhVariant> {
    variant_of_tag(tag_of_code(code))
}

/// Writes a language code as a language tag: every `_` becomes `-`.
pub fn correct_language_code(language_code: &str) -> (r: String)
    ensures
        r@ == tag_of_code(language_code@),
{
    proof {
        reveal_strlit("_");
        reveal_strlit("-");
        assert("_"@ =~= seq!['_']);
        assert("-"@ =~= seq!['-']);
    }
    replace_str(language_code, "_", "-")
}

/// Converts `text` to the variant that the language code `target` names.
pub fn zhconv_wrapper(text: &str, target: &str) -> (r: Result<String, CmdError>)
    ensures
        variant_of_code(target@) is None ==> r == Err::<String, CmdError>(CmdError::ParseLanguageCode),
        variant_of_code(target@) is Some ==> r is Ok && r->Ok_0@ == converted(
            text@,
            variant_of_code(target@)->0,
        ),
{
    let tag = correct_language_code(target);
    match parse_variant(tag.as_str()) {
        Some(v) => Ok(convert_text(text, v)),
        None => Err(CmdError::ParseLanguageCode),
    }
}

/// The source and target documents have the same shape: as many contexts, and as
/// many messages in each context at the same position.
pub open spec fn ts_aligned(s: Ts, t: Ts) -> bool {
    &&& s.contexts@.len() == t.contexts@.len()
    &&& forall|i: int|
        0 <= i < s.contexts@.len() ==> (#[trigger] s.contexts@[i]).messages@.len()
            == t.contexts@[i].messages@.len()
}

/// Context `i` is the first whose message counts differ.
pub open spec fn ts_first_gap(s: Ts, t: Ts, i: int) -> bool {
    &&& s.contexts@.len() == t.contexts@.len()
    &&& 0 <= i < s.contexts@.len()
    &&& s.contexts@[i].messages@.len() != t.contexts@[i].messages@.len()
    &&& forall|k: int|
        0 <= k < i ==> (#[trigger] s.contexts@[k]).messages@.len() == t.contexts@[k].messages@.len()
}

/// The target entry is filled from the source entry: the target is unfinished, the
/// source is not and has a text, and neither is plural.
pub open spec fn ts_pair_needs(s: Message, t: Message) -> bool {
    &&& t.translation.type_attr == Some(TranslationType::Unfinished)
    &&& s.translation.type_attr != Some(TranslationType::Unfinished)
    &&& s.translation.value is Some
    &&& !is_plural(s)
    &&& !is_plural(t)
}

pub open spec fn ts_src(s: Ts, i: int, j: int) -> Message {
    s.contexts@[i].messages@[j]
}

/// Some entry of the target would be filled from the source.
pub open spec fn ts_any_need(s: Ts, t: Ts) -> bool {
    exists|i: int, j: int|
        0 <= i < t.contexts@.len() && 0 <= j < t.contexts@[i].messages@.len() && ts_pair_needs(
            #[trigger] ts_src(s, i, j),
            #[trigger] ts_src(t, i, j),
        )
}

/// `new` is what propagation makes of `old` given `src` for the variant `v`.
pub open spec fn ts_propagated(src: Ts, old: Ts, new: Ts, v: ZhVariant) -> bool {
    &&& new.language == old.language
    &&& new.version == old.version
    &&& new.contexts@.len() == old.contexts@.len()
    &&& forall|i: int|
        0 <= i < old.contexts@.len() ==> {
            &&& (#[trigger] new.contexts@[i]).name == old.contexts@[i].name
            &&& new.contexts@[i].messages@.len() == old.contexts@[i].messages@.len()
        }
    &&& forall|i: int, j: int|
        0 <= i < old.contexts@.len() && 0 <= j < old.contexts@[i].messages@.len() ==> {
            let (s, o, n) = (ts_src(src, i, j), ts_src(old, i, j), #[trigger] ts_src(new, i, j));
            if ts_pair_needs(s, o) {
                is_filled(o, n, converted(s.translation.value->0@, v))
            } else {
                n == o
            }
        }
}

/// Checks that both documents have the same shape.
fn check_ts_alignment(source: &Ts, target: &Ts, language_code: &String) -> (r: Result<(), CmdError>)
    ensures
        source.contexts@.len() != target.contexts@.len() ==> r == Err::<(), CmdError>(
            CmdError::DifferentContexts(*language_code),
        ),
        ts_aligned(*source, *target) <==> r is Ok,
        forall|i: int|
            ts_first_gap(*source, *target, i) ==> r == Err::<(), CmdError>(
                CmdError::DifferentMessages(
                    *language_code,
                    source.contexts@[i].messages@.len() as usize,
                    target.contexts@[i].messages@.len() as usize,
                ),
            ),
{
    if target.contexts.len() != source.contexts.len() {
        return Err(CmdError::DifferentContexts(language_code.clone()));
    }
    let n = source.contexts.len();
    let mut i: usize = 0;
    while i < n
        invariant
            n == source.contexts@.len(),
            n == target.contexts@.len(),
            i <= n,
            forall|k: int|
                0 <= k < i ==> (#[trigger] source.contexts@[k]).messages@.len()
                    == target.contexts@[k].messages@.len(),
        decreases n - i,
    {
        let a = source.contexts[i].messages.len();
        let b = target.contexts[i].messages.len();
        if a != b {
            proof {
                assert forall|g: int| ts_first_gap(*source, *target, g) implies g == i by {
                    if g < i {
                    } else if g > i {
                        assert(source.contexts@[i as int].messages@.len()
                            == target.contexts@[i as int].messages@.len());
                    }
                }
                assert(ts_first_gap(*source, *target, i as int));
            }
            return Err(CmdError::DifferentMessages(language_code.clone(), a, b));
        }
        i = i + 1;
    }
    assert forall|g: int| !ts_first_gap(*source, *target, g) by {}
    Ok(())
}

/// Whether some target entry would be filled from the source.
fn ts_has_need(source: &Ts, target: &Ts) -> (r: bool)
    requires
        ts_aligned(*source, *target),
    ensures
        r == ts_any_need(*source, *target),
{
    let n = target.contexts.len();
    let mut i: usize = 0;
    while i < n
        invariant
            ts_aligned(*source, *target),
            n == target.contexts@.len(),
            i <= n,
            forall|k: int, j: int|
                0 <= k < i && 0 <= j < target.contexts@[k].messages@.len() ==> !ts_pair_needs(
                    #[trigger] ts_src(*source, k, j),
                    #[trigger] ts_src(*target, k, j),
                ),
        decreases n - i,
    {
        let sm = &source.contexts[i].messages;
        let tm = &target.contexts[i].messages;
        let m = tm.len();
        assert(source.contexts@[i as int].messages@.len() == m);
        let mut j: usize = 0;
        while j < m
            invariant
                ts_aligned(*source, *target),
                n == target.contexts@.len(),
                i < n,
                sm@ == source.contexts@[i as int].messages@,
                tm@ == target.contexts@[i as int].messages@,
                m == tm@.len(),
                m == sm@.len(),
                j <= m,
                forall|k: int, l: int|
                    0 <= k < i && 0 <= l < target.contexts@[k].messages@.len() ==> !ts_pair_needs(
                        #[trigger] ts_src(*source, k, l),
                        #[trigger] ts_src(*target, k, l),
                    ),
                forall|l: int|
                    0 <= l < j ==> !ts_pair_needs(
                        #[trigger] ts_src(*source, i as int, l),
                        ts_src(*target, i as int, l),
                    ),
            decreases m - j,
        {
            let s = &sm[j];
            let t = &tm[j];
            let needs = match t.translation.type_attr {
                Some(TranslationType::Unfinished) => {
                    match s.translation.type_attr {
                        Some(TranslationType::Unfinished) => false,
                        _ => s.translation.value.is_some() && s.numerus.is_none()
                            && t.numerus.is_none(),
                    }
                },
                _ => false,
            };
            if needs {
                assert(ts_pair_needs(ts_src(*source, i as int, j as int), ts_src(*target, i as int, j as int)));
                return true;
            }
            j = j + 1;
        }
        i = i + 1;
    }
    false
}

/// Fills every target entry that needs it with the converted source text.
fn ts_fill(source: &Ts, target: &mut Ts, v: ZhVariant)
    requires
        ts_aligned(*source, *old(target)),
    ensures
        ts_propagated(*source, *old(target), *final(target), v),
{
    let n = target.contexts.len();
    let mut i: usize = 0;
    while i < n
        invariant
            ts_aligned(*source, *old(target)),
            n == target.contexts@.len(),
            n == old(target).contexts@.len(),
            i <= n,
            target.language == old(target).language,
            target.version == old(target).version,
            forall|k: int|
                0 <= k < n ==> {
                    &&& (#[trigger] target.contexts@[k]).name == old(target).contexts@[k].name
                    &&& target.contexts@[k].messages@.len() == old(target).contexts@[k].messages@.len()
                },
            forall|k: int| i <= k < n ==> #[trigger] target.contexts@[k] == old(target).contexts@[k],
            forall|k: int, j: int|
                0 <= k < i && 0 <= j < old(target).contexts@[k].messages@.len() ==> {
                    let (s, o, m) = (ts_src(*source, k, j), ts_src(*old(target), k, j), #[trigger] ts_src(*target, k, j));
                    if ts_pair_needs(s, o) {
                        is_filled(o, m, converted(s.translation.value->0@, v))
                    } else {
                        m == o
                    }
                },
        decreases n - i,
    {
        let m = target.contexts[i].messages.len();
        assert(source.contexts@[i as int].messages@.len() == m);
        let mut j: usize = 0;
        while j < m
            invariant
                ts_aligned(*source, *old(target)),
                n == target.contexts@.len(),
                n == old(target).contexts@.len(),
                i < n,
                m == target.contexts@[i as int].messages@.len(),
                m == old(target).contexts@[i as int].messages@.len(),
                m == source.contexts@[i as int].messages@.len(),
                j <= m,
                target.language == old(target).language,
                target.version == old(target).version,
                forall|k: int|
                    0 <= k < n ==> {
                        &&& (#[trigger] target.contexts@[k]).name == old(target).contexts@[k].name
                        &&& target.contexts@[k].messages@.len() == old(target).contexts@[k].messages@.len()
                    },
                forall|k: int| i < k < n ==> #[trigger] target.contexts@[k] == old(target).contexts@[k],
                forall|l: int| j <= l < m ==> #[trigger] ts_src(*target, i as int, l) == ts_src(*old(target), i as int, l),
                forall|k: int, l: int|
                    0 <= k < i && 0 <= l < old(target).contexts@[k].messages@.len() ==> {
                        let (s, o, e) = (ts_src(*source, k, l), ts_src(*old(target), k, l), #[trigger] ts_src(*target, k, l));
                        if ts_pair_needs(s, o) {
                            is_filled(o, e, converted(s.translation.value->0@, v))
                        } else {
                            e == o
                        }
                    },
                forall|l: int|
                    0 <= l < j ==> {
                        let (s, o, e) = (ts_src(*source, i as int, l), ts_src(*old(target), i as int, l), #[trigger] ts_src(*target, i as int, l));
                        if ts_pair_needs(s, o) {
                            is_filled(o, e, converted(s.translation.value->0@, v))
                        } else {
                            e == o
                        }
                    },
            decreases m - j,
        {
            let s = &source.contexts[i].messages[j];
            let needs = match target.contexts[i].messages[j].translation.type_attr {
                Some(TranslationType::Unfinished) => {
                    match s.translation.type_attr {
                        Some(TranslationType::Unfinished) => false,
                        _ => s.translation.value.is_some() && s.numerus.is_none()
                            && target.contexts[i].messages[j].numerus.is_none(),
                    }
                },
                _ => false,
            };
            let ghost prev = *target;
            if needs {
                match &s.translation.value {
                    Some(value) => {
                        let text = convert_text(value.as_str(), v);
                        target.contexts[i].messages[j].fill_translation(text.as_str());
                    },
                    None => {},
                }
            }
            proof {
                assert forall|k: int, l: int| 0 <= k < n && k != i && 0 <= l < target.contexts@[k].messages@.len()
                    implies #[trigger] ts_src(*target, k, l) == ts_src(prev, k, l) by {
                    assert(target.contexts@[k] == prev.contexts@[k]);
                }
                assert forall|l: int| 0 <= l < m && l != j
                    implies #[trigger] ts_src(*target, i as int, l) == ts_src(prev, i as int, l) by {}
            }
            j = j + 1;
        }
        i = i + 1;
    }
}

/// No entry of the target is unfinished.
pub open spec fn ts_fully_translated(t: Ts) -> bool {
    forall|i: int, j: int|
        0 <= i < t.contexts@.len() && 0 <= j < t.contexts@[i].messages@.len() ==> (#[trigger] ts_src(
            t,
            i,
            j,
        )).translation.type_attr != Some(TranslationType::Unfinished)
}

/// A fully translated target has nothing to be filled.
pub proof fn lemma_ts_fully_translated_needs_nothing(s: Ts, t: Ts)
    requires
        ts_fully_translated(t),
    ensures
        !ts_any_need(s, t),
{
}

/// After a propagation nothing is left to be filled, so propagating again changes nothing.
pub proof fn lemma_ts_propagated_needs_nothing(src: Ts, old: Ts, new: Ts, v: ZhVariant)
    requires
        ts_aligned(src, old),
        ts_propagated(src, old, new, v),
    ensures
        ts_aligned(src, new),
        !ts_any_need(src, new),
{
    assert forall|i: int| 0 <= i < src.contexts@.len() implies (#[trigger] src.contexts@[i]).messages@.len()
        == new.contexts@[i].messages@.len() by {
        assert(new.contexts@[i].messages@.len() == old.contexts@[i].messages@.len());
    }
    assert forall|i: int, j: int|
        0 <= i < new.contexts@.len() && 0 <= j < new.contexts@[i].messages@.len() implies !ts_pair_needs(
        #[trigger] ts_src(src, i, j),
        #[trigger] ts_src(new, i, j),
    ) by {
        assert(new.contexts@[i].messages@.len() == old.contexts@[i].messages@.len());
        let o = ts_src(old, i, j);
        if ts_pair_needs(ts_src(src, i, j), o) {
        } else {
            assert(ts_src(new, i, j) == o);
        }
    }
}

/// What `translate_ts_content` makes of `old`, given `src`: the result `r` and the
/// new target `new`.
pub open spec fn ts_outcome(src: Ts, old: Ts, new: Ts, r: Result<(), CmdError>) -> bool {
    &&& (old.language is None ==> r == Err::<(), CmdError>(CmdError::MissingLanguageCode))
    &&& (old.language is Some ==> {
            let lang = old.language->0;
            let v = variant_of_code(lang@);
            &&& src.contexts@.len() != old.contexts@.len() ==> r == Err::<(), CmdError>(CmdError::DifferentContexts(lang))
            &&& forall|i: int|
                ts_first_gap(src, old, i) ==> r == Err::<(), CmdError>(
                    CmdError::DifferentMessages(
                        lang,
                        src.contexts@[i].messages@.len() as usize,
                        old.contexts@[i].messages@.len() as usize,
                    ),
                )
            &&& ts_aligned(src, old) && ts_any_need(src, old) && v is None
                ==> r == Err::<(), CmdError>(CmdError::ParseLanguageCode)
            &&& ts_aligned(src, old) && !(ts_any_need(src, old) && v is None)
                ==> r is Ok
        })
    &&& (r is Err ==> new == old)
    &&& (r is Ok && variant_of_code(old.language->0@) is Some ==> ts_propagated(
        src,
        old,
        new,
        variant_of_code(old.language->0@)->0,
    ))
    &&& (r is Ok ==> !ts_any_need(src, new))
    &&& (r is Ok && !ts_any_need(src, old) ==> new == old)
}

/// Fills every unfinished entry of `target` whose source entry at the same position
/// is translated, converting the text to the target's language.
///
/// Fails, leaving `target` as it was, when the target has no language, when the
/// documents differ in shape, or when an entry is to be filled and the language
/// names no convertible variant. Plural, vanished and obsolete entries are never
/// changed.
pub fn translate_ts_content(source_content: &Ts, target_content: &mut Ts) -> (r: Result<(), CmdError>)
    ensures
        ts_outcome(*source_content, *old(target_content), *final(target_content), r),
        !ts_aligned(*source_content, *old(target_content)) ==> r is Err && *final(target_content) == *old(
            target_content,
        ),
        r is Ok ==> forall|i: int, j: int|
            0 <= i < old(target_content).contexts@.len() && 0 <= j < old(target_content).contexts@[i].messages@.len()
                && ts_pair_needs(ts_src(*source_content, i, j), ts_src(*old(target_content), i, j)) ==> {
                let (s, n) = (ts_src(*source_content, i, j), #[trigger] ts_src(*final(target_content), i, j));
                &&& n.translation.type_attr is None
                &&& n.translation.value is Some
                &&& n.translation.value->0@ == converted(
                    s.translation.value->0@,
                    variant_of_code(old(target_content).language->0@)->0,
                )
            },
        ts_fully_translated(*old(target_content)) && old(target_content).language is Some && ts_aligned(
            *source_content,
            *old(target_content),
        ) ==> r is Ok && *final(target_content) == *old(target_content),
        forall|i: int, j: int|
            0 <= i < old(target_content).contexts@.len() && 0 <= j < old(
                target_content,
            ).contexts@[i].messages@.len() && is_plural(ts_src(*old(target_content), i, j))
                ==> #[trigger] ts_src(*final(target_content), i, j) == ts_src(*old(target_content), i, j),
{
    let language_code = match target_content.get_language() {
        Some(l) => l,
        None => {
            return Err(CmdError::MissingLanguageCode);
        },
    };
    check_ts_alignment(source_content, target_content, &language_code)?;
    proof {
        if ts_fully_translated(*target_content) {
            lemma_ts_fully_translated_needs_nothing(*source_content, *target_content);
        }
    }
    if !ts_has_need(source_content, target_content) {
        return Ok(());
    }
    let tag = correct_language_code(language_code.as_str());
    let v = match parse_variant(tag.as_str()) {
        Some(v) => v,
        None => {
            return Err(CmdError::ParseLanguageCode);
        },
    };
    ts_fill(source_content, target_content, v);
    proof {
        lemma_ts_propagated_needs_nothing(*source_content, *old(target_content), *target_content, v);
    }
    Ok(())
}

/// The target entry is filled from the source entry: the target is untranslated,
/// the source translated, and neither is plural.
pub open spec fn po_pair_needs(s: PoMessage, t: PoMessage) -> bool {
    &&& !po_translated(t)
    &&& po_translated(s)
    &&& !s.is_plural
    &&& !t.is_plural
}

/// Some entry of the target would be filled from the source.
pub open spec fn po_any_need(s: Po, t: Po) -> bool {
    exists|i: int| 0 <= i < t.messages@.len() && po_pair_needs(s.messages@[i], #[trigger] t.messages@[i])
}

/// Every entry of the target is translated.
pub open spec fn po_fully_translated(t: Po) -> bool {
    forall|i: int| 0 <= i < t.messages@.len() ==> po_translated(#[trigger] t.messages@[i])
}

/// `new` is what propagation makes of `old` given `src` for the variant `v`.
pub open spec fn po_propagated(src: Po, old: Po, new: Po, v: ZhVariant) -> bool {
    &&& new.language == old.language
    &&& new.messages@.len() == old.messages@.len()
    &&& forall|i: int|
        0 <= i < old.messages@.len() ==> {
            let (s, o, n) = (src.messages@[i], old.messages@[i], #[trigger] new.messages@[i]);
            if po_pair_needs(s, o) {
                po_with_text(o, n, converted(s.msgstr@, v))
            } else {
                n == o
            }
        }
}

/// Whether some target entry would be filled from the source.
fn po_has_need(source: &Po, target: &Po) -> (r: bool)
    requires
        source.messages@.len() == target.messages@.len(),
    ensures
        r == po_any_need(*source, *target),
{
    let n = target.messages.len();
    let mut i: usize = 0;
    while i < n
        invariant
            n == target.messages@.len(),
            n == source.messages@.len(),
            i <= n,
            forall|k: int| 0 <= k < i ==> !po_pair_needs(source.messages@[k], #[trigger] target.messages@[k]),
        decreases n - i,
    {
        let s = &source.messages[i];
        let t = &target.messages[i];
        if !t.is_translated() && s.is_translated() && !s.is_plural && !t.is_plural {
            return true;
        }
        i = i + 1;
    }
    false
}

/// Fills every target entry that needs it with the converted source text.
fn po_fill(source: &Po, target: &mut Po, v: ZhVariant)
    requires
        source.messages@.len() == old(target).messages@.len(),
    ensures
        po_propagated(*source, *old(target), *final(target), v),
{
    let n = target.messages.len();
    let mut i: usize = 0;
    while i < n
        invariant
            n == target.messages@.len(),
            n == old(target).messages@.len(),
            n == source.messages@.len(),
            i <= n,
            target.language == old(target).language,
            forall|k: int| i <= k < n ==> #[trigger] target.messages@[k] == old(target).messages@[k],
            forall|k: int|
                0 <= k < i ==> {
                    let (s, o, e) = (source.messages@[k], old(target).messages@[k], #[trigger] target.messages@[k]);
                    if po_pair_needs(s, o) {
                        po_with_text(o, e, converted(s.msgstr@, v))
                    } else {
                        e == o
                    }
                },
        decreases n - i,
    {
        let s = &source.messages[i];
        if !target.messages[i].is_translated() && s.is_translated() && !s.is_plural
            && !target.messages[i].is_plural {
            let text = convert_text(s.msgstr.as_str(), v);
            target.messages[i].set_msgstr(text);
        }
        i = i + 1;
    }
}

/// What `translate_po_content` makes of `old`, given `src`: the result `r` and the
/// new target `new`.
pub open spec fn po_outcome(src: Po, old: Po, new: Po, r: Result<(), CmdError>) -> bool {
    let lang = old.language;
    let v = variant_of_code(lang@);
    let (ns, nt) = (src.messages@.len(), old.messages@.len());
    &&& ns != nt ==> r == Err::<(), CmdError>(CmdError::DifferentMessages(lang, ns as usize, nt as usize))
    &&& ns == nt && po_any_need(src, old) && v is None ==> r == Err::<(), CmdError>(
        CmdError::ParseLanguageCode,
    )
    &&& ns == nt && !(po_any_need(src, old) && v is None) ==> r is Ok
    &&& r is Ok && v is Some ==> po_propagated(src, old, new, v->0)
    &&& r is Err ==> new == old
    &&& r is Ok && !po_any_need(src, old) ==> new == old
}

/// Fills every untranslated singular entry of `target` whose source entry at the
/// same position is a translated singular entry, converting the text to the
/// target's language.
///
/// Fails, leaving `target` as it was, when the catalogs differ in length, or when
/// an entry is to be filled and the language names no convertible variant.
pub fn translate_po_content(source_content: &Po, target_content: &mut Po) -> (r: Result<(), CmdError>)
    ensures
        po_outcome(*source_content, *old(target_content), *final(target_content), r),
        po_fully_translated(*old(target_content)) && source_content.messages@.len() == old(
            target_content,
        ).messages@.len() ==> r is Ok && *final(target_content) == *old(target_content),
        forall|i: int|
            0 <= i < old(target_content).messages@.len() && (#[trigger] old(target_content).messages@[i]).is_plural
                ==> final(target_content).messages@[i] == old(target_content).messages@[i],
{
    let language_code = target_content.get_language();
    let target_msg_count = target_content.messages.len();
    let source_msg_count = source_content.messages.len();
    if target_msg_count != source_msg_count {
        return Err(CmdError::DifferentMessages(language_code, source_msg_count, target_msg_count));
    }
    if !po_has_need(source_content, target_content) {
        return Ok(());
    }
    let tag = correct_language_code(language_code.as_str());
    let v = match parse_variant(tag.as_str()) {
        Some(v) => v,
        None => {
            return Err(CmdError::ParseLanguageCode);
        },
    };
    po_fill(source_content, target_content, v);
    Ok(())
}

/// A translation document of either kind.
#[derive(Debug, Clone)]
pub enum ZhConvFile {
    Linguist(Ts),
    Gettext(Po),
}

impl ZhConvFile {
    pub open spec fn language_spec(&self) -> Option<Seq<char>> {
        match self {
            ZhConvFile::Linguist(ts) => match ts.language {
                Some(l) => Some(l@),
                None => None,
            },
            ZhConvFile::Gettext(po) => Some(po.language@),
        }
    }

    pub open spec fn same_kind(&self, other: &Self) -> bool {
        match (self, other) {
            (ZhConvFile::Linguist(_), ZhConvFile::Linguist(_)) => true,
            (ZhConvFile::Gettext(_), ZhConvFile::Gettext(_)) => true,
            _ => false,
        }
    }

    pub fn get_language(&self) -> (r: Option<String>)
        ensures
            r is None <==> self.language_spec() is None,
            r is Some ==> self.language_spec() == Some(r->0@),
    {
        match self {
            ZhConvFile::Linguist(ts) => ts.get_language(),
            ZhConvFile::Gettext(po) => Some(po.get_language()),
        }
    }

    pub fn set_language(&mut self, language_code: &str)
        ensures
            final(self).language_spec() == Some(language_code@),
            final(self).same_kind(&*old(self)),
            match (*old(self), *final(self)) {
                (ZhConvFile::Linguist(a), ZhConvFile::Linguist(b)) => a.contexts == b.contexts
                    && a.version == b.version,
                (ZhConvFile::Gettext(a), ZhConvFile::Gettext(b)) => a.messages == b.messages,
                _ => false,
            },
    {
        match self {
            ZhConvFile::Linguist(ts) => ts.set_language(language_code),
            ZhConvFile::Gettext(po) => po.set_language(language_code),
        }
    }

    /// Fills this document from `reference_content`, which must be of the same kind.
    pub fn translate_content_based_on(&mut self, reference_content: &Self) -> (r: Result<(), CmdError>)
        ensures
            !old(self).same_kind(reference_content) ==> r == Err::<(), CmdError>(
                CmdError::MismatchedI18nFileType,
            ) && *final(self) == *old(self),
            match (*old(self), *reference_content, *final(self)) {
                (ZhConvFile::Linguist(o), ZhConvFile::Linguist(s), ZhConvFile::Linguist(n)) => ts_outcome(s, o, n, r),
                (ZhConvFile::Gettext(o), ZhConvFile::Gettext(s), ZhConvFile::Gettext(n)) => po_outcome(s, o, n, r),
                _ => !old(self).same_kind(reference_content),
            },
    {
        match (self, reference_content) {
            (ZhConvFile::Linguist(lhs), ZhConvFile::Linguist(rhs)) => translate_ts_content(rhs, lhs),
            (ZhConvFile::Gettext(lhs), ZhConvFile::Gettext(rhs)) => translate_po_content(rhs, lhs),
            _ => Err(CmdError::MismatchedI18nFileType),
        }
    }

    /// The target document for `target_language`: `existing` when its file was there,
    /// else a copy of this source with nothing translated. Either way it ends up
    /// carrying `target_language`.
    pub fn load_or_create_target_file(self, existing: Option<Self>, target_language: &str) -> (r: Result<
        Self,
        CmdError,
    >)
        ensures
            existing is Some && !existing->0.same_kind(&self) ==> r == Err::<Self, CmdError>(
                CmdError::MismatchedI18nFileType,
            ),
            !(existing is Some && !existing->0.same_kind(&self)) ==> r is Ok,
            r is Ok ==> r->Ok_0.language_spec() == Some(target_language@) && r->Ok_0.same_kind(&self),
            r is Ok ==> match (self, existing, r->Ok_0) {
                (ZhConvFile::Linguist(s), None, ZhConvFile::Linguist(t)) => is_bootstrap(s, target_language@, t),
                (ZhConvFile::Gettext(s), None, ZhConvFile::Gettext(t)) => po_is_bootstrap(s, target_language@, t),
                (_, Some(ZhConvFile::Linguist(e)), ZhConvFile::Linguist(t)) => t.contexts == e.contexts && t.version
                    == e.version,
                (_, Some(ZhConvFile::Gettext(e)), ZhConvFile::Gettext(t)) => t.messages == e.messages,
                _ => false,
            },
    {
        let mut target = match (self, existing) {
            (ZhConvFile::Linguist(_), Some(ZhConvFile::Linguist(e))) => ZhConvFile::Linguist(e),
            (ZhConvFile::Gettext(_), Some(ZhConvFile::Gettext(e))) => ZhConvFile::Gettext(e),
            (ZhConvFile::Linguist(ts), None) => ZhConvFile::Linguist(
                Ts::load_from_file_or_default(None, ts, target_language),
            ),
            (ZhConvFile::Gettext(po), None) => ZhConvFile::Gettext(
                Po::load_from_file_or_default(None, po, target_language),
            ),
            _ => {
                return Err(CmdError::MismatchedI18nFileType);
            },
        };
        let matches = match target.get_language() {
            Some(l) => crate::text::str_eq(l.as_str(), target_language),
            None => false,
        };
        if !matches {
            target.set_language(target_language);
        }
        Ok(target)
    }
}

/// The path of the file for `target_language` next to `source_path`: the file name
/// with each occurrence of `source_language` replaced. `None` when the file name
/// does not hold `source_language` (or it is empty).
pub fn target_file_path(source_path: &str, source_language: &str, target_language: &str) -> (r: Option<String>)
    ensures
        source_language@.len() == 0 || !seq_contains(file_name_spec(source_path@), source_language@) <==> r is None,
        r is Some ==> r->0@ == {
            let dir = source_path@.subrange(0, source_path@.len() - file_name_spec(source_path@).len());
            dir + replace_all(file_name_spec(source_path@), source_language@, target_language@)
        },
{
    let name = file_name_of(source_path);
    if source_language.unicode_len() == 0 || !str_contains(name, source_language) {
        return None;
    }
    let n = source_path.unicode_len();
    let k = name.unicode_len();
    proof {
        lemma_last_index(source_path@, '/');
    }
    let dir = source_path.substring_char(0, n - k);
    let mut out = String::from_str(dir);
    let replaced = replace_str(name, source_language, target_language);
    out.append(replaced.as_str());
    Some(out)
}

} // verus!
