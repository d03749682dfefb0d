//! The list of recipients, as a JSON document.
//!
//! The document is either `["addr1", "addr2", ...]` or
//! `{ "recipients": ["addr1", ...] }`.

use vstd::prelude::*;
use crate::json::{entry, get, json_of_text, json_tree, parse_text, JsonTree};
use crate::text::{all_space, is_space, law_trim_takes_only_space, push_line, texts, trim};
use crate::text::trimmed;

verus! {

/// What is wrong with a list of recipients.
#[derive(Debug, Clone, Copy, PartialEq, Eq, Structural)]
pub enum RecipientsFault {
    /// The text is no JSON.
    NotJson,
    /// The document is neither a list nor a table with a list of recipients.
    NoList,
    /// An entry is no text.
    NotText,
    /// No recipient is left.
    Empty,
}

/// Why a document is no list of recipients.
#[derive(Debug)]
pub struct RecipientsError {
    pub fault: RecipientsFault,
    /// What the JSON reader said of a text that is no JSON.
    pub cause: String,
}

/// The text of each entry, where it is one.
pub open spec fn entry_texts(v: Seq<Option<String>>) -> Seq<Option<Seq<char>>> {
    v.map_values(
        |s: Option<String>|
            match s {
                Some(s) => Some(s@),
                None => None,
            },
    )
}

/// The entries without the white space around them, in order; blank ones left out.
pub open spec fn kept(entries: Seq<Option<Seq<char>>>) -> Seq<Seq<char>>
    decreases entries.len(),
{
    if entries.len() == 0 {
        Seq::empty()
    } else {
        let before = kept(entries.drop_last());
        let t = trimmed(entries.last()->0);
        if t.len() == 0 {
            before
        } else {
            before.push(t)
        }
    }
}

/// Whether every entry is a text.
pub open spec fn all_texts(entries: Seq<Option<Seq<char>>>) -> bool {
    forall|i: int| 0 <= i < entries.len() ==> #[trigger] entries[i] is Some
}

/// The recipients that a list of entries names.
pub open spec fn recipients_of(entries: Seq<Option<Seq<char>>>) -> Result<
    Seq<Seq<char>>,
    RecipientsFault,
> {
    if !all_texts(entries) {
        Err(RecipientsFault::NotText)
    } else if kept(entries).len() == 0 {
        Err(RecipientsFault::Empty)
    } else {
        Ok(kept(entries))
    }
}

/// The list of recipients in a document.
pub open spec fn list_in(doc: JsonTree) -> Option<Seq<JsonTree>> {
    match doc {
        JsonTree::List(items) => Some(items),
        _ => match entry(doc, "recipients"@) {
            Some(JsonTree::List(items)) => Some(items),
            _ => None,
        },
    }
}

/// The text of each item, where it is one.
pub open spec fn item_texts(items: Seq<JsonTree>) -> Seq<Option<Seq<char>>> {
    items.map_values(
        |t: JsonTree|
            match t {
                JsonTree::Text(s) => Some(s),
                _ => None,
            },
    )
}

/// The recipients that a document names.
pub open spec fn recipients_in(doc: JsonTree) -> Result<Seq<Seq<char>>, RecipientsFault> {
    match list_in(doc) {
        None => Err(RecipientsFault::NoList),
        Some(items) => recipients_of(item_texts(items)),
    }
}

/// The result `r` is the one that `model` describes.
pub open spec fn is_result(
    r: Result<Vec<String>, RecipientsFault>,
    model: Result<Seq<Seq<char>>, RecipientsFault>,
) -> bool {
    match model {
        Ok(list) => r is Ok && texts(r->Ok_0@) == list,
        Err(e) => r == Err::<Vec<String>, RecipientsFault>(e),
    }
}

/// Trims the entries of a list and drops the blank ones. An entry that is `None` is
/// one that is no text.
pub fn clean_recipients(entries: &[Option<String>]) -> (r: Result<Vec<String>, RecipientsFault>)
    ensures
        is_result(r, recipients_of(entry_texts(entries@))),
{
    let ghost model = entry_texts(entries@);
    let mut out: Vec<String> = Vec::new();
    let mut i: usize = 0;
    assert(model.take(0) =~= Seq::empty());
    assert(texts(out@) =~= Seq::empty());
    while i < entries.len()
        invariant
            model == entry_texts(entries@),
            i <= entries@.len(),
            all_texts(model.take(i as int)),
            texts(out@) == kept(model.take(i as int)),
        decreases entries@.len() - i,
    {
        let ghost seen = model.take(i + 1);
        assert(seen.drop_last() =~= model.take(i as int));
        match &entries[i] {
            None => {
                assert(model[i as int] is None);
                return Err(RecipientsFault::NotText);
            },
            Some(s) => {
                assert(seen.last() == Some(s@));
                let t = trim(s.as_str());
                if !t.as_str().is_empty() {
                    push_line(&mut out, t);
                }
                assert forall|k: int| 0 <= k < seen.len() implies #[trigger] seen[k] is Some by {
                    if k < i {
                        assert(seen[k] == model.take(i as int)[k]);
                    }
                }
            },
        }
        i = i + 1;
    }
    assert(model.take(model.len() as int) =~= model);
    if out.len() == 0 {
        assert(texts(out@).len() == 0);
        return Err(RecipientsFault::Empty);
    }
    assert(texts(out@).len() > 0);
    Ok(out)
}

/// Reads the recipients from the text of a document.
pub fn load_recipients(content: &str) -> (r: Result<Vec<String>, RecipientsError>)
    ensures
        match json_of_text(content@) {
            Err(words) => {
                &&& r is Err
                &&& r->Err_0.fault == RecipientsFault::NotJson
                &&& r->Err_0.cause@ == words
            },
            Ok(doc) => match recipients_in(doc) {
                Ok(list) => r is Ok && texts(r->Ok_0@) == list,
                Err(fault) => {
                    &&& r is Err
                    &&& r->Err_0.fault == fault
                    &&& r->Err_0.cause@.len() == 0
                },
            },
        },
{
    match parse_text(content) {
        Ok(doc) => match named_recipients(&doc) {
            Ok(list) => Ok(list),
            Err(fault) => Err(RecipientsError { fault, cause: String::new() }),
        },
        Err(cause) => Err(RecipientsError { fault: RecipientsFault::NotJson, cause }),
    }
}

fn named_recipients(doc: &serde_json::Value) -> (r: Result<Vec<String>, RecipientsFault>)
    ensures
        is_result(r, recipients_in(json_tree(*doc))),
{
    let items: &Vec<serde_json::Value> = match doc.as_array() {
        Some(a) => a,
        None => match get(doc, "recipients") {
            Some(v) => match v.as_array() {
                Some(a) => a,
                None => {
                    return Err(RecipientsFault::NoList);
                },
            },
            None => {
                return Err(RecipientsFault::NoList);
            },
        },
    };
    let ghost trees = list_in(json_tree(*doc))->0;
    assert(items@.len() == trees.len());
    let ghost model = item_texts(trees);
    let mut entries: Vec<Option<String>> = Vec::new();
    let mut i: usize = 0;
    while i < items.len()
        invariant
            i <= items@.len(),
            items@.len() == trees.len(),
            forall|k: int| 0 <= k < trees.len() ==> json_tree(#[trigger] items@[k]) == trees[k],
            model == item_texts(trees),
            entries@.len() == i,
            forall|k: int|
                0 <= k < i ==> #[trigger] entry_texts(entries@)[k] == item_texts(trees)[k],
        decreases items@.len() - i,
    {
        let ghost before = entries@;
        match items[i].as_str() {
            Some(s) => {
                entries.push(Some(s.to_owned()));
            },
            None => {
                entries.push(None);
            },
        }
        assert forall|k: int| 0 <= k < i + 1 implies #[trigger] entry_texts(entries@)[k]
            == item_texts(trees)[k] by {
            if k < i {
                assert(entry_texts(before)[k] == item_texts(trees)[k]);
            }
        }
        i = i + 1;
    }
    assert(entry_texts(entries@) =~= model);
    clean_recipients(entries.as_slice())
}

/// A list that was read names at least one recipient, none of them blank.
pub proof fn law_recipients_are_not_blank(entries: Seq<Option<Seq<char>>>)
    ensures
        recipients_of(entries) matches Ok(list) ==> list.len() > 0 && forall|i: int|
            0 <= i < list.len() ==> #[trigger] list[i].len() > 0,
{
    lemma_kept_are_not_blank(entries);
}

proof fn lemma_kept_are_not_blank(entries: Seq<Option<Seq<char>>>)
    ensures
        forall|i: int| 0 <= i < kept(entries).len() ==> #[trigger] kept(entries)[i].len() > 0,
    decreases entries.len(),
{
    if entries.len() > 0 {
        let before = kept(entries.drop_last());
        lemma_kept_are_not_blank(entries.drop_last());
        assert forall|i: int| 0 <= i < kept(entries).len() implies #[trigger] kept(
            entries,
        )[i].len() > 0 by {
            if i < before.len() {
                assert(before[i].len() > 0);
            }
        }
    }
}

/// Entries are kept one by one, in order: what two lists keep together is what each keeps,
/// a blank entry keeps nothing, and any other one keeps its text without the white space
/// around it.
pub proof fn law_entries_are_kept_one_by_one(
    a: Seq<Option<Seq<char>>>,
    b: Seq<Option<Seq<char>>>,
    before: Seq<char>,
    text: Seq<char>,
    after: Seq<char>,
)
    requires
        all_space(before),
        all_space(after),
        text.len() > 0 ==> !is_space(text[0]) && !is_space(text.last()),
    ensures
        kept(a + b) == kept(a) + kept(b),
        text.len() > 0 ==> kept(seq![Some(before + text + after)]) == seq![text],
        kept(seq![Some(before)]) == Seq::<Seq<char>>::empty(),
{
    lemma_kept_adds_up(a, b);
    let none = Seq::<Option<Seq<char>>>::empty();
    let one = seq![Some(before + text + after)];
    let blank = seq![Some(before)];
    assert(one.drop_last() =~= none);
    assert(blank.drop_last() =~= none);
    assert(kept(none) =~= Seq::empty());
    let empty = Seq::<char>::empty();
    assert(before + empty + empty =~= before);
    law_trim_takes_only_space(before, empty, empty);
    if text.len() > 0 {
        law_trim_takes_only_space(before, text, after);
        assert(kept(one) =~= seq![text]);
    }
}

proof fn lemma_kept_adds_up(a: Seq<Option<Seq<char>>>, b: Seq<Option<Seq<char>>>)
    ensures
        kept(a + b) == kept(a) + kept(b),
    decreases b.len(),
{
    if b.len() == 0 {
        assert(a + b =~= a);
        assert(kept(a) + kept(b) =~= kept(a));
    } else {
        lemma_kept_adds_up(a, b.drop_last());
        assert((a + b).drop_last() =~= a + b.drop_last());
        assert((a + b).last() == b.last());
        let t = trimmed(b.last()->0);
        assert(kept(a) + kept(b.drop_last()).push(t) =~= (kept(a) + kept(b.drop_last())).push(t));
    }
}

/// A list is refused for an entry that is no text, wherever it stands, and else only where
/// nothing is kept of it.
pub proof fn law_lists_are_refused_for_cause(entries: Seq<Option<Seq<char>>>, i: int)
    ensures
        0 <= i < entries.len() && entries[i] is None ==> recipients_of(entries) == Err::<
            Seq<Seq<char>>,
            RecipientsFault,
        >(RecipientsFault::NotText),
        (forall|k: int| 0 <= k < entries.len() ==> #[trigger] entries[k] is Some) && kept(
            entries,
        ).len() > 0 ==> recipients_of(entries) == Ok::<Seq<Seq<char>>, RecipientsFault>(
            kept(entries),
        ),
        (forall|k: int| 0 <= k < entries.len() ==> #[trigger] entries[k] is Some) && kept(
            entries,
        ).len() == 0 ==> recipients_of(entries) == Err::<Seq<Seq<char>>, RecipientsFault>(
            RecipientsFault::Empty,
        ),
{
}

/// Both forms of a document name the same recipients: a list, and a table that holds the
/// list under `recipients`, whatever else it holds. No other document names any.
pub proof fn law_both_forms_name_the_same(
    items: Seq<JsonTree>,
    m: Map<Seq<char>, JsonTree>,
    doc: JsonTree,
)
    ensures
        recipients_in(JsonTree::List(items)) == recipients_of(item_texts(items)),
        recipients_in(JsonTree::Table(m.insert("recipients"@, JsonTree::List(items))))
            == recipients_in(JsonTree::List(items)),
        !m.contains_key("recipients"@) ==> recipients_in(JsonTree::Table(m)) == Err::<
            Seq<Seq<char>>,
            RecipientsFault,
        >(RecipientsFault::NoList),
        doc is Text || doc is Other ==> recipients_in(doc) == Err::<
            Seq<Seq<char>>,
            RecipientsFault,
        >(RecipientsFault::NoList),
{
}

/// The texts of a list stand where its items stand: a text for a text, and nothing for any
/// other item.
pub proof fn law_texts_stand_where_items_stand(
    items: Seq<JsonTree>,
    entries: Seq<Option<String>>,
    i: int,
    s: Seq<char>,
)
    ensures
        item_texts(items).len() == items.len(),
        entry_texts(entries).len() == entries.len(),
        0 <= i < items.len() ==> (item_texts(items)[i] == Some(s) <==> items[i]
            == JsonTree::Text(s)),
        0 <= i < entries.len() ==> (entry_texts(entries)[i] == Some(s) <==> entries[i] is Some
            && entries[i]->0@ == s),
{
}

} // verus!
