//! The vault: account entries, the clean-up applied to what a user types,
//! and the edits made to the list of entries (a record is found by its
//! label together with its account).

use crate::text::{is_blank, is_blank_text, lemma_trimmed_idempotent, str_trim, trimmed, trimmed_string};
use vstd::prelude::*;

verus! {

/// One account: its TOTP secret (Base32, as typed) and/or its recovery codes.
#[derive(Clone)]
pub struct Entry {
    /// Display name of the service, e.g. "GitHub".
    pub label: String,
    /// The account at that service (e-mail, user name, ...).
    pub account: String,
    /// Base32 TOTP secret, kept as typed.
    pub secret: Option<String>,
    /// One-time recovery codes.
    pub codes: Option<Vec<String>>,
    /// Free-form note.
    pub note: Option<String>,
}

/// An entry as plain character sequences.
pub struct EntryModel {
    pub label: Seq<char>,
    pub account: Seq<char>,
    pub secret: Option<Seq<char>>,
    pub codes: Option<Seq<Seq<char>>>,
    pub note: Option<Seq<char>>,
}

/// An optional text by its characters.
pub open spec fn text_of(o: Option<String>) -> Option<Seq<char>> {
    match o {
        Some(s) => Some(s@),
        None => None,
    }
}

/// A list of texts by their characters.
pub open spec fn texts(v: Seq<String>) -> Seq<Seq<char>> {
    v.map_values(|s: String| s@)
}

/// An optional list of texts by their characters.
pub open spec fn codes_of(o: Option<Vec<String>>) -> Option<Seq<Seq<char>>> {
    match o {
        Some(v) => Some(texts(v@)),
        None => None,
    }
}

impl View for Entry {
    type V = EntryModel;

    open spec fn view(&self) -> EntryModel {
        EntryModel {
            label: self.label@,
            account: self.account@,
            secret: text_of(self.secret),
            codes: codes_of(self.codes),
            note: text_of(self.note),
        }
    }
}

/// Message for an entry whose label is blank.
pub open spec fn empty_label_message() -> Seq<char> {
    "服务不能为空"@
}

/// Message for an entry whose account is blank.
pub open spec fn empty_account_message() -> Seq<char> {
    "账号不能为空"@
}

/// Message for a label and account that no entry has.
pub open spec fn not_found_message(label: Seq<char>, account: Seq<char>) -> Seq<char> {
    "找不到记录："@ + label + " · "@ + account
}

/// Message for an edit that would give two entries the same label and account.
pub open spec fn duplicate_message(label: Seq<char>, account: Seq<char>) -> Seq<char> {
    "已存在「"@ + label + " · "@ + account + "」"@
}

/// Recovery codes trimmed one by one, blank ones dropped, order kept.
pub open spec fn cleaned_code_list(cs: Seq<Seq<char>>) -> Seq<Seq<char>>
    decreases cs.len(),
{
    if cs.len() == 0 {
        seq![]
    } else {
        let rest = cleaned_code_list(cs.drop_last());
        let t = trimmed(cs.last());
        if t.len() == 0 {
            rest
        } else {
            rest.push(t)
        }
    }
}

/// Cleaned recovery codes; "no codes" is always `None`, never an empty list.
pub open spec fn cleaned_codes(codes: Option<Seq<Seq<char>>>) -> Option<Seq<Seq<char>>> {
    let l = match codes {
        Some(cs) => cleaned_code_list(cs),
        None => seq![],
    };
    if l.len() == 0 {
        None
    } else {
        Some(l)
    }
}

/// An optional text, with a blank one counted as absent.
pub open spec fn kept_if_filled(o: Option<Seq<char>>) -> Option<Seq<char>> {
    match o {
        Some(s) => if is_blank(s) {
            None
        } else {
            Some(s)
        },
        None => None,
    }
}

/// What an entry typed by a user becomes before it is stored: label and
/// account must not be blank and are trimmed; a blank secret or note is
/// dropped (a filled one is kept as typed); recovery codes are cleaned.
pub open spec fn normalized(e: EntryModel) -> Result<EntryModel, Seq<char>> {
    if is_blank(e.label) {
        Err(empty_label_message())
    } else if is_blank(e.account) {
        Err(empty_account_message())
    } else {
        Ok(
            EntryModel {
                label: trimmed(e.label),
                account: trimmed(e.account),
                secret: kept_if_filled(e.secret),
                codes: cleaned_codes(e.codes),
                note: kept_if_filled(e.note),
            },
        )
    }
}

/// An entry result by its model and the text of its error.
pub open spec fn entry_result(r: Result<Entry, String>) -> Result<EntryModel, Seq<char>> {
    match r {
        Ok(e) => Ok(e@),
        Err(m) => Err(m@),
    }
}

/// Whether an entry has the given label and account.
pub open spec fn has_key(e: Entry, label: Seq<char>, account: Seq<char>) -> bool {
    e.label@ == label && e.account@ == account
}

/// Index of the first entry with the given label and account.
pub open spec fn position_of(es: Seq<Entry>, label: Seq<char>, account: Seq<char>) -> Option<int>
    decreases es.len(),
{
    if es.len() == 0 {
        None
    } else {
        match position_of(es.drop_last(), label, account) {
            Some(i) => Some(i),
            None => if has_key(es.last(), label, account) {
                Some(es.len() - 1)
            } else {
                None
            },
        }
    }
}

/// Whether some entry other than the one at (`label`, `account`) already
/// has the label and account of `new`.
pub open spec fn clashes(es: Seq<Entry>, new: Entry, label: Seq<char>, account: Seq<char>) -> bool {
    exists|j: int|
        0 <= j < es.len() && #[trigger] has_key(es[j], new.label@, new.account@) && !has_key(
            es[j],
            label,
            account,
        )
}

/// The entries that do not have the given label and account, in order.
pub open spec fn without_key(es: Seq<Entry>, label: Seq<char>, account: Seq<char>) -> Seq<Entry> {
    es.filter(|e: Entry| !has_key(e, label, account))
}

/// No two entries share both label and account.
pub open spec fn keys_unique(es: Seq<Entry>) -> bool {
    forall|i: int, j: int|
        #![trigger es[i], es[j]]
        0 <= i < es.len() && 0 <= j < es.len() && i != j ==> !has_key(es[i], es[j].label@, es[j].account@)
}

/// What `position_of` finds: the first match, or no match at all.
pub proof fn lemma_position_of(es: Seq<Entry>, label: Seq<char>, account: Seq<char>)
    ensures
        match position_of(es, label, account) {
            Some(i) => 0 <= i < es.len() && has_key(es[i], label, account) && forall|j: int|
                0 <= j < i ==> !#[trigger] has_key(es[j], label, account),
            None => forall|j: int| 0 <= j < es.len() ==> !#[trigger] has_key(es[j], label, account),
        },
    decreases es.len(),
{
    if es.len() > 0 {
        lemma_position_of(es.drop_last(), label, account);
        assert forall|j: int| 0 <= j < es.len() - 1 implies es.drop_last()[j] == es[j] by {}
    }
}

/// A blank-aware copy of an optional text: a blank one becomes `None`.
pub fn keep_if_filled(o: Option<String>) -> (r: Option<String>)
    ensures
        text_of(r) == kept_if_filled(text_of(o)),
{
    match o {
        Some(s) => if is_blank_text(s.as_str()) {
            None
        } else {
            Some(s)
        },
        None => None,
    }
}

/// Trims every recovery code, drops blank ones and returns `None` when none
/// is left, so that "no recovery codes" is always written as a missing field.
pub fn clean_codes(codes: Option<Vec<String>>) -> (r: Option<Vec<String>>)
    ensures
        codes_of(r) == cleaned_codes(codes_of(codes)),
{
    let list: Vec<String> = match codes {
        Some(v) => v,
        None => Vec::new(),
    };
    let ghost all = texts(list@);
    let mut out: Vec<String> = Vec::new();
    let mut i: usize = 0;
    while i < list.len()
        invariant
            0 <= i <= list@.len(),
            all == texts(list@),
            texts(out@) == cleaned_code_list(all.take(i as int)),
        decreases list@.len() - i,
    {
        let t = str_trim(list[i].as_str());
        let ghost before = out@;
        if !t.is_empty() {
            out.push(t.to_owned());
            assert(texts(out@) =~= texts(before).push(t@));
        }
        assert(all.take(i + 1).drop_last() =~= all.take(i as int));
        assert(all.take(i + 1).last() == list@[i as int]@);
        i += 1;
    }
    assert(all.take(list@.len() as int) =~= all);
    proof {
        if codes is None {
            assert(all =~= Seq::<Seq<char>>::empty());
        }
    }
    if out.len() == 0 {
        None
    } else {
        Some(out)
    }
}

/// Checks and cleans an entry as typed by a user: the label, then the
/// account, must not be blank; both are stored trimmed; a blank secret or
/// note is dropped; recovery codes are cleaned.
pub fn normalize_entry(entry: Entry) -> (r: Result<Entry, String>)
    ensures
        entry_result(r) == normalized(entry@),
{
    if is_blank_text(entry.label.as_str()) {
        return Err("服务不能为空".to_owned());
    }
    if is_blank_text(entry.account.as_str()) {
        return Err("账号不能为空".to_owned());
    }
    let label = trimmed_string(entry.label.as_str());
    let account = trimmed_string(entry.account.as_str());
    Ok(
        Entry {
            label,
            account,
            secret: keep_if_filled(entry.secret),
            codes: clean_codes(entry.codes),
            note: keep_if_filled(entry.note),
        },
    )
}

/// Index of the first entry with the given label and account.
pub fn find_entry(entries: &Vec<Entry>, label: &String, account: &String) -> (r: Option<usize>)
    ensures
        r matches Some(i) ==> position_of(entries@, label@, account@) == Some(i as int),
        r is None ==> position_of(entries@, label@, account@) is None,
        r matches Some(i) ==> i < entries@.len() && has_key(entries@[i as int], label@, account@),
{
    proof {
        lemma_position_of(entries@, label@, account@);
    }
    let mut i: usize = 0;
    while i < entries.len()
        invariant
            0 <= i <= entries@.len(),
            forall|j: int| 0 <= j < i ==> !#[trigger] has_key(entries@[j], label@, account@),
            match position_of(entries@, label@, account@) {
                Some(p) => 0 <= p < entries@.len() && has_key(entries@[p], label@, account@)
                    && forall|j: int| 0 <= j < p ==> !#[trigger] has_key(entries@[j], label@, account@),
                None => forall|j: int|
                    0 <= j < entries@.len() ==> !#[trigger] has_key(entries@[j], label@, account@),
            },
        decreases entries@.len() - i,
    {
        if entries[i].label == *label && entries[i].account == *account {
            assert(has_key(entries@[i as int], label@, account@));
            return Some(i);
        }
        i += 1;
    }
    None
}

/// Builds the message for a label and account that no entry has.
fn not_found(label: &String, account: &String) -> (m: String)
    ensures
        m@ == not_found_message(label@, account@),
{
    let mut m = "找不到记录：".to_owned();
    m.append(label.as_str());
    m.append(" · ");
    m.append(account.as_str());
    m
}

/// Builds the message for a label and account that an entry already has.
fn duplicate(label: &String, account: &String) -> (m: String)
    ensures
        m@ == duplicate_message(label@, account@),
{
    let mut m = "已存在「".to_owned();
    m.append(label.as_str());
    m.append(" · ");
    m.append(account.as_str());
    m.append("」");
    m
}

/// Appends `entry` (already cleaned) at the end, unless an entry with the
/// same label and account is already there: label and account together
/// identify one record, so that addition is refused and nothing changes.
pub fn add_entry(entries: &mut Vec<Entry>, entry: Entry) -> (r: Result<(), String>)
    ensures
        match position_of(old(entries)@, entry.label@, entry.account@) {
            Some(_) => r matches Err(m) && m@ == duplicate_message(entry.label@, entry.account@)
                && final(entries)@ == old(entries)@,
            None => r is Ok && final(entries)@ == old(entries)@.push(entry),
        },
{
    match find_entry(entries, &entry.label, &entry.account) {
        Some(_) => Err(duplicate(&entry.label, &entry.account)),
        None => {
            entries.push(entry);
            Ok(())
        },
    }
}

/// Replaces the entry found by its original label and account with `entry`
/// (already cleaned). Refused, with nothing changed, when another entry
/// already has the new label and account, or when no entry has the original ones.
pub fn replace_entry(
    entries: &mut Vec<Entry>,
    original_label: &String,
    original_account: &String,
    entry: Entry,
) -> (r: Result<(), String>)
    ensures
        clashes(old(entries)@, entry, original_label@, original_account@) ==> {
            &&& r matches Err(m) && m@ == duplicate_message(entry.label@, entry.account@)
            &&& final(entries)@ == old(entries)@
        },
        !clashes(old(entries)@, entry, original_label@, original_account@) ==> match position_of(
            old(entries)@,
            original_label@,
            original_account@,
        ) {
            Some(i) => r is Ok && final(entries)@ == old(entries)@.update(i, entry),
            None => r matches Err(m) && m@ == not_found_message(original_label@, original_account@)
                && final(entries)@ == old(entries)@,
        },
{
    let mut i: usize = 0;
    while i < entries.len()
        invariant
            0 <= i <= entries@.len(),
            forall|j: int|
                0 <= j < i ==> !(#[trigger] has_key(entries@[j], entry.label@, entry.account@)
                    && !has_key(entries@[j], original_label@, original_account@)),
        decreases entries@.len() - i,
    {
        let e = &entries[i];
        if e.label == entry.label && e.account == entry.account && !(e.label == *original_label
            && e.account == *original_account) {
            assert(has_key(entries@[i as int], entry.label@, entry.account@));
            return Err(duplicate(&entry.label, &entry.account));
        }
        i += 1;
    }
    assert(!clashes(entries@, entry, original_label@, original_account@));
    match find_entry(entries, original_label, original_account) {
        Some(i) => {
            entries.set(i, entry);
            Ok(())
        },
        None => Err(not_found(original_label, original_account)),
    }
}

/// Replaces, as a whole, the recovery codes of the entry found by label and
/// account with the cleaned `codes` (an empty list clears them).
pub fn set_recovery_codes(
    entries: &mut Vec<Entry>,
    label: &String,
    account: &String,
    codes: Option<Vec<String>>,
) -> (r: Result<(), String>)
    ensures
        match position_of(old(entries)@, label@, account@) {
            Some(i) => {
                &&& r is Ok
                &&& final(entries)@.len() == old(entries)@.len()
                &&& forall|j: int|
                    0 <= j < old(entries)@.len() && j != i ==> #[trigger] final(entries)@[j]
                        == old(entries)@[j]
                &&& final(entries)@[i].label == old(entries)@[i].label
                &&& final(entries)@[i].account == old(entries)@[i].account
                &&& final(entries)@[i].secret == old(entries)@[i].secret
                &&& final(entries)@[i].note == old(entries)@[i].note
                &&& codes_of(final(entries)@[i].codes) == cleaned_codes(codes_of(codes))
            },
            None => r matches Err(m) && m@ == not_found_message(label@, account@)
                && final(entries)@ == old(entries)@,
        },
{
    proof {
        lemma_position_of(old(entries)@, label@, account@);
    }
    match find_entry(entries, label, account) {
        Some(i) => {
            let cleaned = clean_codes(codes);
            let ghost before = entries@;
            let mut e = entries.remove(i);
            e.codes = cleaned;
            entries.insert(i, e);
            assert(entries@ =~= before.update(i as int, e));
            Ok(())
        },
        None => Err(not_found(label, account)),
    }
}

/// Removes every entry with the given label and account; the others stay,
/// in order. Removing what is not there changes nothing.
pub fn remove_entries(entries: &mut Vec<Entry>, label: &String, account: &String)
    ensures
        final(entries)@ == without_key(old(entries)@, label@, account@),
{
    let mut all: Vec<Entry> = Vec::new();
    std::mem::swap(&mut all, entries);
    let ghost orig = all@;
    let ghost keep = |e: Entry| !has_key(e, label@, account@);
    for e in it: all.into_iter()
        invariant
            it.seq() == orig,
            keep == (|x: Entry| !has_key(x, label@, account@)),
            entries@ == orig.take(it.index()).filter(keep),
    {
        let ghost k = it.index();
        proof {
            let t = orig.take(k + 1);
            assert(t.drop_last() =~= orig.take(k));
            assert(t.last() == e);
            reveal_with_fuel(Seq::<_>::filter, 1);
            assert(t.filter(keep) == if keep(e) {
                orig.take(k).filter(keep).push(e)
            } else {
                orig.take(k).filter(keep)
            });
        }
        if !(e.label == *label && e.account == *account) {
            entries.push(e);
        }
    }
    assert(orig.take(orig.len() as int) =~= orig);
}

/// An addition that `add_entry` accepts never gives two entries the same
/// label and account: if they were unique before, they are unique after.
pub proof fn lemma_add_keeps_keys_unique(es: Seq<Entry>, new: Entry)
    requires
        keys_unique(es),
        position_of(es, new.label@, new.account@) is None,
    ensures
        keys_unique(es.push(new)),
{
    lemma_position_of(es, new.label@, new.account@);
    let r = es.push(new);
    assert forall|i: int, j: int|
        #![trigger r[i], r[j]]
        0 <= i < r.len() && 0 <= j < r.len() && i != j implies !has_key(r[i], r[j].label@, r[j].account@) by {
        if i == es.len() {
            assert(r[j] == es[j]);
            assert(!has_key(es[j], new.label@, new.account@));
        } else if j == es.len() {
            assert(r[i] == es[i]);
            assert(!has_key(es[i], new.label@, new.account@));
        } else {
            assert(r[i] == es[i] && r[j] == es[j]);
        }
    }
}

/// An edit that `replace_entry` accepts never gives two entries the same
/// label and account: if they were unique before, they are unique after.
pub proof fn lemma_replace_keeps_keys_unique(
    es: Seq<Entry>,
    label: Seq<char>,
    account: Seq<char>,
    new: Entry,
)
    requires
        keys_unique(es),
        !clashes(es, new, label, account),
        position_of(es, label, account) is Some,
    ensures
        keys_unique(es.update(position_of(es, label, account)->0, new)),
{
    lemma_position_of(es, label, account);
    let p = position_of(es, label, account)->0;
    let r = es.update(p, new);
    assert forall|i: int, j: int|
        #![trigger r[i], r[j]]
        0 <= i < r.len() && 0 <= j < r.len() && i != j implies !has_key(r[i], r[j].label@, r[j].account@) by {
        if i == p {
            if has_key(es[j], new.label@, new.account@) {
                assert(has_key(es[j], label, account));
                assert(es[i] == es[p]);
            }
        } else if j == p {
            if has_key(es[i], new.label@, new.account@) {
                assert(has_key(es[i], label, account));
            }
        } else {
            assert(r[i] == es[i] && r[j] == es[j]);
        }
    }
}

/// After an accepted edit of a vault with unique keys, looking the entry up
/// by its new label and account finds exactly the edited entry.
pub proof fn lemma_replaced_entry_found_by_new_key(
    es: Seq<Entry>,
    label: Seq<char>,
    account: Seq<char>,
    new: Entry,
)
    requires
        keys_unique(es),
        !clashes(es, new, label, account),
        position_of(es, label, account) is Some,
    ensures
        position_of(es.update(position_of(es, label, account)->0, new), new.label@, new.account@)
            == position_of(es, label, account),
{
    let p = position_of(es, label, account)->0;
    let r = es.update(p, new);
    lemma_position_of(es, label, account);
    lemma_replace_keeps_keys_unique(es, label, account, new);
    lemma_position_of(r, new.label@, new.account@);
    assert(has_key(r[p], new.label@, new.account@));
    match position_of(r, new.label@, new.account@) {
        Some(q) => {
            if q != p {
                assert(!has_key(r[q], r[p].label@, r[p].account@));
            }
        },
        None => {},
    }
}

/// Changing the recovery codes of one entry, as `set_recovery_codes` does,
/// keeps every label and account, so unique keys stay unique.
pub proof fn lemma_codes_edit_keeps_keys_unique(before: Seq<Entry>, after: Seq<Entry>, i: int)
    requires
        keys_unique(before),
        0 <= i < before.len(),
        after.len() == before.len(),
        forall|j: int| 0 <= j < before.len() && j != i ==> #[trigger] after[j] == before[j],
        after[i].label == before[i].label,
        after[i].account == before[i].account,
    ensures
        keys_unique(after),
{
    assert forall|a: int, b: int|
        #![trigger after[a], after[b]]
        0 <= a < after.len() && 0 <= b < after.len() && a != b implies !has_key(after[a], after[b].label@, after[b].account@) by {
        assert(has_key(after[a], after[b].label@, after[b].account@) == has_key(before[a], before[b].label@, before[b].account@));
    }
}

/// After removal no entry has the removed label and account, and every
/// entry that had a different label or account is still there (another
/// account of the same service survives).
pub proof fn lemma_removal_is_exact(es: Seq<Entry>, label: Seq<char>, account: Seq<char>)
    ensures
        forall|i: int|
            0 <= i < without_key(es, label, account).len() ==> !has_key(
                #[trigger] without_key(es, label, account)[i],
                label,
                account,
            ),
        forall|i: int|
            0 <= i < es.len() && !has_key(es[i], label, account) ==> without_key(
                es,
                label,
                account,
            ).contains(#[trigger] es[i]),
{
    let keep = |e: Entry| !has_key(e, label, account);
    assert forall|i: int| 0 <= i < es.filter(keep).len() implies !has_key(
        #[trigger] es.filter(keep)[i],
        label,
        account,
    ) by {
        es.lemma_filter_pred(keep, i);
    }
    assert forall|i: int| 0 <= i < es.len() && !has_key(es[i], label, account) implies es.filter(
        keep,
    ).contains(#[trigger] es[i]) by {
        es.lemma_filter_contains(keep, i);
    }
}

/// Removing twice is removing once: deletion is idempotent.
pub proof fn lemma_removal_idempotent(es: Seq<Entry>, label: Seq<char>, account: Seq<char>)
    ensures
        without_key(without_key(es, label, account), label, account) == without_key(es, label, account),
    decreases es.len(),
{
    let keep = |e: Entry| !has_key(e, label, account);
    reveal_with_fuel(Seq::<_>::filter, 1);
    if es.len() > 0 {
        lemma_removal_idempotent(es.drop_last(), label, account);
        let f = es.drop_last().filter(keep);
        if keep(es.last()) {
            assert(f.push(es.last()).drop_last() =~= f);
        }
    }
}

/// Removal keeps unique keys unique.
pub proof fn lemma_removal_keeps_keys_unique(es: Seq<Entry>, label: Seq<char>, account: Seq<char>)
    requires
        keys_unique(es),
    ensures
        keys_unique(without_key(es, label, account)),
    decreases es.len(),
{
    let keep = |e: Entry| !has_key(e, label, account);
    reveal_with_fuel(Seq::<_>::filter, 1);
    if es.len() > 0 {
        let d = es.drop_last();
        assert forall|i: int, j: int|
            #![trigger d[i], d[j]]
            0 <= i < d.len() && 0 <= j < d.len() && i != j implies !has_key(d[i], d[j].label@, d[j].account@) by {
            assert(d[i] == es[i] && d[j] == es[j]);
        }
        lemma_removal_keeps_keys_unique(d, label, account);
        let f = d.filter(keep);
        if keep(es.last()) {
            let r = f.push(es.last());
            assert forall|i: int, j: int|
                #![trigger r[i], r[j]]
                0 <= i < r.len() && 0 <= j < r.len() && i != j implies !has_key(r[i], r[j].label@, r[j].account@) by {
                if i == f.len() || j == f.len() {
                    let k = if i == f.len() { j } else { i };
                    d.lemma_filter_contains_rev(keep, f[k]);
                    let m = choose|m: int| 0 <= m < d.len() && d[m] == f[k];
                    assert(es[m] == d[m]);
                    assert(es[es.len() - 1] == es.last());
                }
            }
        }
    }
}

/// Cleaned recovery codes are never an empty list, and every code in them
/// is filled and already trimmed.
pub proof fn lemma_cleaned_codes_shape(codes: Option<Seq<Seq<char>>>)
    ensures
        cleaned_codes(codes) matches Some(l) ==> l.len() > 0 && forall|i: int|
            0 <= i < l.len() ==> (#[trigger] l[i]).len() > 0 && trimmed(l[i]) == l[i],
{
    if let Some(cs) = codes {
        lemma_cleaned_code_list_shape(cs);
    }
}

/// Every code of a cleaned list is filled and trimmed.
pub proof fn lemma_cleaned_code_list_shape(cs: Seq<Seq<char>>)
    ensures
        forall|i: int|
            0 <= i < cleaned_code_list(cs).len() ==> (#[trigger] cleaned_code_list(cs)[i]).len() > 0
                && trimmed(cleaned_code_list(cs)[i]) == cleaned_code_list(cs)[i],
    decreases cs.len(),
{
    if cs.len() > 0 {
        lemma_cleaned_code_list_shape(cs.drop_last());
        lemma_trimmed_idempotent(cs.last());
        let r = cleaned_code_list(cs.drop_last());
        let t = trimmed(cs.last());
        if t.len() > 0 {
            assert forall|i: int| 0 <= i < r.push(t).len() implies (#[trigger] r.push(t)[i]).len()
                > 0 && trimmed(r.push(t)[i]) == r.push(t)[i] by {
                if i < r.len() {
                    assert(r.push(t)[i] == r[i]);
                }
            }
        }
    }
}

/// Cleaning a cleaned list changes nothing.
pub proof fn lemma_cleaned_code_list_idempotent(cs: Seq<Seq<char>>)
    ensures
        cleaned_code_list(cleaned_code_list(cs)) == cleaned_code_list(cs),
    decreases cs.len(),
{
    if cs.len() > 0 {
        lemma_cleaned_code_list_idempotent(cs.drop_last());
        let r = cleaned_code_list(cs.drop_last());
        let t = trimmed(cs.last());
        lemma_trimmed_idempotent(cs.last());
        if t.len() > 0 {
            assert(r.push(t).drop_last() =~= r);
        }
    }
}

/// Blankness does not change under trimming.
pub proof fn lemma_blank_after_trim(s: Seq<char>)
    ensures
        is_blank(trimmed(s)) == is_blank(s),
{
    lemma_trimmed_idempotent(s);
}

/// A stored entry is already clean: cleaning it again changes nothing, so
/// saving an entry back unchanged stores it unchanged.
pub proof fn lemma_normalized_idempotent(e: EntryModel)
    requires
        normalized(e) is Ok,
    ensures
        normalized(normalized(e)->Ok_0) == normalized(e),
        !is_blank(normalized(e)->Ok_0.label),
        !is_blank(normalized(e)->Ok_0.account),
{
    let m = normalized(e)->Ok_0;
    lemma_blank_after_trim(e.label);
    lemma_blank_after_trim(e.account);
    lemma_trimmed_idempotent(e.label);
    lemma_trimmed_idempotent(e.account);
    lemma_cleaned_codes_shape(e.codes);
    if let Some(cs) = e.codes {
        lemma_cleaned_code_list_idempotent(cs);
    }
    assert(kept_if_filled(m.secret) == m.secret);
    assert(kept_if_filled(m.note) == m.note);
    assert(cleaned_codes(m.codes) == m.codes);
}

/// Cleaning keeps every recovery code that is not blank, trimmed and in
/// its order, and drops exactly the blank ones.
pub proof fn lemma_cleaning_keeps_every_filled_code(cs: Seq<Seq<char>>)
    ensures
        cleaned_code_list(cs) == cs.map_values(|c: Seq<char>| trimmed(c)).filter(
            |c: Seq<char>| c.len() > 0,
        ),
    decreases cs.len(),
{
    let f = |c: Seq<char>| trimmed(c);
    let p = |c: Seq<char>| c.len() > 0;
    if cs.len() == 0 {
        assert(cs.map_values(f) =~= Seq::<Seq<char>>::empty());
        reveal_with_fuel(Seq::<_>::filter, 1);
    } else {
        lemma_cleaning_keeps_every_filled_code(cs.drop_last());
        let d = cs.drop_last().map_values(f);
        assert(cs.map_values(f) =~= d.push(trimmed(cs.last())));
        d.lemma_filter_push(trimmed(cs.last()), p);
    }
}

/// A list of filled, trimmed recovery codes comes out of cleaning unchanged:
/// every code is kept, in order.
pub proof fn lemma_cleaning_keeps_clean_codes(cs: Seq<Seq<char>>)
    requires
        forall|i: int| 0 <= i < cs.len() ==> (#[trigger] cs[i]).len() > 0 && trimmed(cs[i]) == cs[i],
    ensures
        cleaned_code_list(cs) == cs,
        cs.len() > 0 ==> cleaned_codes(Some(cs)) == Some(cs),
    decreases cs.len(),
{
    if cs.len() > 0 {
        let d = cs.drop_last();
        assert forall|i: int| 0 <= i < d.len() implies (#[trigger] d[i]).len() > 0 && trimmed(d[i])
            == d[i] by {
            assert(d[i] == cs[i]);
        }
        lemma_cleaning_keeps_clean_codes(d);
        assert(cs.last() == cs[cs.len() - 1]);
        assert(d.push(cs.last()) =~= cs);
    }
}

/// What cleaning an entry does to each field: label and account are
/// required (not blank) and stored trimmed; a filled secret and a filled
/// note are each kept exactly as typed, whatever the other fields hold, and
/// a blank or missing one is stored as missing.
pub proof fn lemma_normalized_fields(e: EntryModel)
    ensures
        normalized(e) is Ok <==> !is_blank(e.label) && !is_blank(e.account),
        normalized(e) matches Ok(m) ==> {
            &&& m.label == trimmed(e.label)
            &&& m.account == trimmed(e.account)
            &&& match e.secret {
                Some(x) => if is_blank(x) {
                    m.secret is None
                } else {
                    m.secret == Some(x)
                },
                None => m.secret is None,
            }
            &&& match e.note {
                Some(x) => if is_blank(x) {
                    m.note is None
                } else {
                    m.note == Some(x)
                },
                None => m.note is None,
            }
        },
{
}

/// The stored note depends on the typed note alone, and the stored secret
/// on the typed secret alone.
pub proof fn lemma_note_and_secret_independent(e1: EntryModel, e2: EntryModel)
    requires
        normalized(e1) is Ok,
        normalized(e2) is Ok,
    ensures
        e1.note == e2.note ==> normalized(e1)->Ok_0.note == normalized(e2)->Ok_0.note,
        e1.secret == e2.secret ==> normalized(e1)->Ok_0.secret == normalized(e2)->Ok_0.secret,
{
    lemma_normalized_fields(e1);
    lemma_normalized_fields(e2);
}

/// Removal works piece by piece and keeps order: removing from a
/// concatenation concatenates what is left of each part.
pub proof fn lemma_removal_distributes(
    a: Seq<Entry>,
    b: Seq<Entry>,
    label: Seq<char>,
    account: Seq<char>,
)
    ensures
        without_key(a + b, label, account) == without_key(a, label, account) + without_key(
            b,
            label,
            account,
        ),
{
    Seq::filter_distributes_over_add(a, b, |e: Entry| !has_key(e, label, account));
}

/// Removal drops a single entry exactly when it has the label and account.
pub proof fn lemma_removal_single(e: Entry, label: Seq<char>, account: Seq<char>)
    ensures
        without_key(seq![e], label, account) == if has_key(e, label, account) {
            Seq::<Entry>::empty()
        } else {
            seq![e]
        },
{
    Seq::<Entry>::empty().lemma_filter_push(e, |x: Entry| !has_key(x, label, account));
    reveal_with_fuel(Seq::<_>::filter, 1);
    assert(Seq::<Entry>::empty().push(e) =~= seq![e]);
}

/// Removing a label and account that no entry has changes nothing.
pub proof fn lemma_removal_without_match(es: Seq<Entry>, label: Seq<char>, account: Seq<char>)
    requires
        forall|i: int| 0 <= i < es.len() ==> !#[trigger] has_key(es[i], label, account),
    ensures
        without_key(es, label, account) == es,
    decreases es.len(),
{
    if es.len() > 0 {
        let d = es.drop_last();
        assert forall|i: int| 0 <= i < d.len() implies !#[trigger] has_key(d[i], label, account) by {
            assert(d[i] == es[i]);
        }
        lemma_removal_without_match(d, label, account);
        assert(es.last() == es[es.len() - 1]);
        d.lemma_filter_push(es.last(), |x: Entry| !has_key(x, label, account));
        assert(d.push(es.last()) =~= es);
    }
}

} // verus!
