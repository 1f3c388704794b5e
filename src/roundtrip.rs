//! Reading a formatted record gives back the same record, and formatting
//! what was read is a fixed point.

use vstd::prelude::*;
use crate::date::{date_of, lemma_date_text};
use crate::ident::{id_text, lemma_id_text};
use crate::text::{
    is_space, is_word, join, lemma_tokens_concat, lemma_tokens_join, lemma_tokens_word, split_from,
    tokens,
};
use crate::todocontext::context_of;
use crate::todoitem::{
    context_words, date_ok, date_word, finish, due_key, ext_words, format_line, keyed, lead_words,
    opt_date_text, opt_id_text, parse_dates, parse_line, parse_words, payload, plain_word,
    project_words, rec_key, scan, spaced_after, spaced_before, start_model, step, sub_key,
    tail_words, threshold_key, uuid_key, ItemModel, Scanned, TodoItemParseError,
};
use crate::todopriority::{lemma_priority_text, priority_of, priority_shaped, TodoPriority};
use crate::todoproject::project_of;
use crate::todorecurrence::lemma_recurrence_text;

verus! {

pub open spec fn all_words(ws: Seq<Seq<char>>) -> bool {
    forall|i: int| 0 <= i < ws.len() ==> is_word(#[trigger] ws[i])
}

/// The description is plain words separated by single spaces.
pub open spec fn description_ok(d: Seq<char>) -> bool {
    &&& join(tokens(d)) == d
    &&& forall|i: int| 0 <= i < tokens(d).len() ==> plain_word(#[trigger] tokens(d)[i])
}

/// The fields of a record that its line can carry.
pub open spec fn fields_ok(m: ItemModel) -> bool {
    &&& m.done ==> m.completion_date is Some && m.creation_date is Some
    &&& !m.done ==> m.completion_date is None
    &&& m.priority matches Some(p) ==> p < 26
    &&& date_ok(m.completion_date)
    &&& date_ok(m.creation_date)
    &&& date_ok(m.due)
    &&& date_ok(m.threshold)
    &&& m.recurrence matches Some(r) ==> r.wf()
    &&& description_ok(m.description)
    &&& all_words(m.projects)
    &&& all_words(m.contexts)
}

/// The words after the dates of a record's line.
pub open spec fn rest_words(m: ItemModel) -> Seq<Seq<char>> {
    tokens(m.description) + tail_words(m)
}

/// On an open record without a creation date, the first word after the
/// priority is not read as a date, and without a priority it is neither the
/// done marker nor shaped like a priority.
pub open spec fn lead_ok(m: ItemModel) -> bool {
    let rest = rest_words(m);
    (!m.done && m.creation_date is None && rest.len() > 0) ==> {
        &&& date_of(rest[0]) is None
        &&& m.priority is None ==> rest[0] != seq!['x'] && !priority_shaped(rest[0])
    }
}

/// A record that its line represents faithfully.
pub open spec fn valid_record(m: ItemModel) -> bool {
    fields_ok(m) && lead_ok(m)
}

proof fn lemma_tokens_spaced_after(ls: Seq<Seq<char>>, x: Seq<char>)
    requires
        all_words(ls),
    ensures
        tokens(spaced_after(ls) + x) == ls + tokens(x),
    decreases ls.len(),
{
    if ls.len() == 0 {
        assert(spaced_after(ls) + x =~= x);
        assert(ls + tokens(x) =~= tokens(x));
    } else {
        let front = ls.drop_last();
        assert(all_words(front)) by {
            assert forall|i: int| 0 <= i < front.len() implies is_word(#[trigger] front[i]) by {
                assert(front[i] == ls[i]);
            }
        }
        assert(is_word(ls[ls.len() - 1]));
        lemma_tokens_spaced_after(front, ls.last());
        lemma_tokens_word(ls.last());
        assert(spaced_after(ls) + x =~= (spaced_after(front) + ls.last()) + seq![' '] + x);
        lemma_tokens_concat(spaced_after(front) + ls.last(), ' ', x);
        assert(ls =~= front + seq![ls.last()]);
        assert(ls + tokens(x) =~= front + seq![ls.last()] + tokens(x));
    }
}

proof fn lemma_tokens_spaced_before(y: Seq<char>, ts: Seq<Seq<char>>)
    requires
        all_words(ts),
    ensures
        tokens(y + spaced_before(ts)) == tokens(y) + ts,
    decreases ts.len(),
{
    if ts.len() == 0 {
        assert(y + spaced_before(ts) =~= y);
        assert(tokens(y) + ts =~= tokens(y));
    } else {
        let front = ts.drop_last();
        assert(all_words(front)) by {
            assert forall|i: int| 0 <= i < front.len() implies is_word(#[trigger] front[i]) by {
                assert(front[i] == ts[i]);
            }
        }
        assert(is_word(ts[ts.len() - 1]));
        lemma_tokens_spaced_before(y, front);
        lemma_tokens_word(ts.last());
        assert(y + spaced_before(ts) =~= (y + spaced_before(front)) + seq![' '] + ts.last());
        lemma_tokens_concat(y + spaced_before(front), ' ', ts.last());
        assert(ts =~= front + seq![ts.last()]);
        assert(tokens(y) + ts =~= tokens(y) + front + seq![ts.last()]);
    }
}

proof fn lemma_key_word(key: Seq<char>, v: Seq<char>)
    requires
        is_word(v),
        forall|i: int| 0 <= i < key.len() ==> !is_space(#[trigger] key[i]),
    ensures
        is_word(key + v),
{
    let w = key + v;
    assert forall|i: int| 0 <= i < w.len() implies !is_space(#[trigger] w[i]) by {
        if i >= key.len() {
            assert(w[i] == v[i - key.len()]);
        } else {
            assert(w[i] == key[i]);
        }
    }
}

proof fn lemma_lead_words(m: ItemModel)
    requires
        fields_ok(m),
    ensures
        all_words(lead_words(m)),
{
    let xs: Seq<Seq<char>> = if m.done {
        seq![seq!['x']]
    } else {
        seq![]
    };
    let ps: Seq<Seq<char>> = match m.priority {
        Some(p) => seq![TodoPriority { priority: Some(p) }.text()],
        None => seq![],
    };
    let ds: Seq<Seq<char>> = if m.done {
        date_word(m.completion_date) + date_word(m.creation_date)
    } else {
        date_word(m.creation_date)
    };
    assert(lead_words(m) == xs + ps + ds);
    if let Some(d) = m.completion_date {
        lemma_date_text(d);
    }
    if let Some(d) = m.creation_date {
        lemma_date_text(d);
    }
    if let Some(p) = m.priority {
        let t = TodoPriority { priority: Some(p) }.text();
        assert(is_word(t)) by {
            assert forall|i: int| 0 <= i < t.len() implies !is_space(#[trigger] t[i]) by {
                assert(i == 0 || i == 1 || i == 2);
            }
        }
    }
    assert(is_word(seq!['x'])) by {
        assert forall|i: int| 0 <= i < 1 implies !is_space(#[trigger] seq!['x'][i]) by {}
    }
    let l = lead_words(m);
    assert forall|i: int| 0 <= i < l.len() implies is_word(#[trigger] l[i]) by {
        if i < xs.len() {
            assert(l[i] == xs[i]);
        } else if i < xs.len() + ps.len() {
            assert(l[i] == ps[i - xs.len()]);
        } else {
            assert(l[i] == ds[i - xs.len() - ps.len()]);
        }
    }
}

proof fn lemma_all_words_concat(a: Seq<Seq<char>>, b: Seq<Seq<char>>)
    requires
        all_words(a),
        all_words(b),
    ensures
        all_words(a + b),
{
    let c = a + b;
    assert forall|i: int| 0 <= i < c.len() implies is_word(#[trigger] c[i]) by {
        if i < a.len() {
            assert(c[i] == a[i]);
        } else {
            assert(c[i] == b[i - a.len()]);
        }
    }
}

proof fn lemma_keyed_words(key: Seq<char>, v: Option<Seq<char>>)
    requires
        forall|i: int| 0 <= i < key.len() ==> !is_space(#[trigger] key[i]),
        v matches Some(x) ==> is_word(x),
    ensures
        all_words(keyed(key, v)),
{
    if let Some(x) = v {
        lemma_key_word(key, x);
        assert(keyed(key, v) == seq![key + x]);
    }
}

proof fn lemma_ext_words(m: ItemModel)
    requires
        fields_ok(m),
    ensures
        all_words(ext_words(m)),
{
    let e1 = keyed(due_key(), opt_date_text(m.due));
    let e2 = keyed(
        rec_key(),
        match m.recurrence {
            Some(r) => Some(r.text()),
            None => None,
        },
    );
    let e3 = keyed(threshold_key(), opt_date_text(m.threshold));
    let e4 = keyed(uuid_key(), opt_id_text(m.uuid));
    let e5 = keyed(sub_key(), opt_id_text(m.sub));
    if let Some(d) = m.due {
        lemma_date_text(d);
    }
    if let Some(r) = m.recurrence {
        lemma_recurrence_text(r);
    }
    if let Some(d) = m.threshold {
        lemma_date_text(d);
    }
    if let Some(u) = m.uuid {
        lemma_id_text(u);
    }
    if let Some(u) = m.sub {
        lemma_id_text(u);
    }
    lemma_keyed_words(due_key(), opt_date_text(m.due));
    lemma_keyed_words(
        rec_key(),
        match m.recurrence {
            Some(r) => Some(r.text()),
            None => None,
        },
    );
    lemma_keyed_words(threshold_key(), opt_date_text(m.threshold));
    lemma_keyed_words(uuid_key(), opt_id_text(m.uuid));
    lemma_keyed_words(sub_key(), opt_id_text(m.sub));
    lemma_all_words_concat(e1, e2);
    lemma_all_words_concat(e1 + e2, e3);
    lemma_all_words_concat(e1 + e2 + e3, e4);
    lemma_all_words_concat(e1 + e2 + e3 + e4, e5);
}

proof fn lemma_tail_words(m: ItemModel)
    requires
        fields_ok(m),
    ensures
        all_words(tail_words(m)),
{
    let pw = project_words(m.projects);
    let cw = context_words(m.contexts);
    assert forall|i: int| 0 <= i < pw.len() implies is_word(#[trigger] pw[i]) by {
        assert(is_word(m.projects[i]));
        lemma_key_word(seq!['+'], m.projects[i]);
    }
    assert forall|i: int| 0 <= i < cw.len() implies is_word(#[trigger] cw[i]) by {
        assert(is_word(m.contexts[i]));
        lemma_key_word(seq!['@'], m.contexts[i]);
    }
    lemma_ext_words(m);
    lemma_all_words_concat(pw, cw);
    lemma_all_words_concat(pw + cw, ext_words(m));
}

/// The words of a record's line: the lead words, the description's words,
/// then the tags and extension fields.
pub proof fn lemma_format_tokens(m: ItemModel)
    requires
        fields_ok(m),
    ensures
        tokens(format_line(m)) == lead_words(m) + tokens(m.description) + tail_words(m),
{
    lemma_lead_words(m);
    lemma_tail_words(m);
    lemma_tokens_spaced_before(m.description, tail_words(m));
    lemma_tokens_spaced_after(lead_words(m), m.description + spaced_before(tail_words(m)));
    assert(format_line(m) =~= spaced_after(lead_words(m)) + (m.description + spaced_before(
        tail_words(m),
    )));
    assert(lead_words(m) + (tokens(m.description) + tail_words(m)) =~= lead_words(m) + tokens(
        m.description,
    ) + tail_words(m));
}


proof fn lemma_scan_concat(a: Seq<Seq<char>>, b: Seq<Seq<char>>, m: ItemModel, ws: Seq<Seq<char>>)
    ensures
        scan(a + b, m, ws) == match scan(a, m, ws) {
            Ok(p) => scan(b, p.0, p.1),
            Err(e) => Scanned::Err(e),
        },
    decreases a.len(),
{
    if a.len() == 0 {
        assert(a + b =~= b);
    } else {
        assert((a + b).drop_first() =~= a.drop_first() + b);
        assert((a + b)[0] == a[0]);
        match step(a[0], m, ws) {
            Ok(p) => lemma_scan_concat(a.drop_first(), b, p.0, p.1),
            Err(e) => {},
        }
    }
}

proof fn lemma_scan_plain(w: Seq<Seq<char>>, m: ItemModel, ws: Seq<Seq<char>>)
    requires
        forall|i: int| 0 <= i < w.len() ==> plain_word(#[trigger] w[i]),
    ensures
        scan(w, m, ws) == Scanned::Ok((m, ws + w)),
    decreases w.len(),
{
    if w.len() == 0 {
        assert(ws + w =~= ws);
    } else {
        assert(plain_word(w[0]));
        let rest = w.drop_first();
        assert forall|i: int| 0 <= i < rest.len() implies plain_word(#[trigger] rest[i]) by {
            assert(rest[i] == w[i + 1]);
        }
        lemma_scan_plain(rest, m, ws.push(w[0]));
        assert(ws.push(w[0]) + rest =~= ws + w);
    }
}

proof fn lemma_scan_projects(ns: Seq<Seq<char>>, m: ItemModel, ws: Seq<Seq<char>>)
    requires
        all_words(ns),
    ensures
        scan(project_words(ns), m, ws) == Scanned::Ok((ItemModel { projects: m.projects + ns, ..m }, ws)),
    decreases ns.len(),
{
    let pw = project_words(ns);
    if ns.len() == 0 {
        assert(m.projects + ns =~= m.projects);
        assert(pw =~= Seq::<Seq<char>>::empty());
    } else {
        let w = pw[0];
        assert(w == seq!['+'] + ns[0]);
        assert(is_word(ns[0]));
        assert(w.drop_first() =~= ns[0]);
        assert(project_of(w) == Some(ns[0]));
        let rest = ns.drop_first();
        assert(all_words(rest)) by {
            assert forall|i: int| 0 <= i < rest.len() implies is_word(#[trigger] rest[i]) by {
                assert(rest[i] == ns[i + 1]);
            }
        }
        assert(pw.drop_first() =~= project_words(rest));
        let m1 = ItemModel { projects: m.projects.push(ns[0]), ..m };
        lemma_scan_projects(rest, m1, ws);
        assert(m.projects.push(ns[0]) + rest =~= m.projects + ns);
    }
}

proof fn lemma_scan_contexts(ns: Seq<Seq<char>>, m: ItemModel, ws: Seq<Seq<char>>)
    requires
        all_words(ns),
    ensures
        scan(context_words(ns), m, ws) == Scanned::Ok((ItemModel { contexts: m.contexts + ns, ..m }, ws)),
    decreases ns.len(),
{
    let cw = context_words(ns);
    if ns.len() == 0 {
        assert(m.contexts + ns =~= m.contexts);
        assert(cw =~= Seq::<Seq<char>>::empty());
    } else {
        let w = cw[0];
        assert(w == seq!['@'] + ns[0]);
        assert(is_word(ns[0]));
        assert(w.drop_first() =~= ns[0]);
        assert(project_of(w) is None);
        assert(context_of(w) == Some(ns[0]));
        let rest = ns.drop_first();
        assert(all_words(rest)) by {
            assert forall|i: int| 0 <= i < rest.len() implies is_word(#[trigger] rest[i]) by {
                assert(rest[i] == ns[i + 1]);
            }
        }
        assert(cw.drop_first() =~= context_words(rest));
        let m1 = ItemModel { contexts: m.contexts.push(ns[0]), ..m };
        lemma_scan_contexts(rest, m1, ws);
        assert(m.contexts.push(ns[0]) + rest =~= m.contexts + ns);
    }
}

proof fn lemma_payload_own(key: Seq<char>, v: Seq<char>)
    requires
        v.len() > 0,
    ensures
        payload(key + v, key) == Some(v),
{
    let w = key + v;
    assert(w.subrange(0, key.len() as int) =~= key);
    assert(w.subrange(key.len() as int, w.len() as int) =~= v);
}

proof fn lemma_payload_other(w: Seq<char>, key: Seq<char>)
    requires
        w.len() > 0,
        key.len() > 0,
        w[0] != key[0],
    ensures
        payload(w, key) is None,
{
    if key.len() <= w.len() {
        assert(w.subrange(0, key.len() as int)[0] != key[0]);
    }
}

proof fn lemma_scan_one(w: Seq<char>, m: ItemModel, ws: Seq<Seq<char>>)
    ensures
        scan(seq![w], m, ws) == step(w, m, ws),
{
    let one = seq![w];
    assert(one[0] == w);
    assert(one.drop_first() =~= Seq::<Seq<char>>::empty());
    match step(w, m, ws) {
        Ok(p) => {
            assert(scan(one.drop_first(), p.0, p.1) == Scanned::Ok((p.0, p.1)));
        },
        Err(e) => {},
    }
}

/// The record after scanning `ext_words(m)`: `m1` with the extension fields of `m`.
pub open spec fn with_ext(m1: ItemModel, m: ItemModel) -> ItemModel {
    ItemModel {
        due: m.due,
        recurrence: m.recurrence,
        threshold: m.threshold,
        uuid: m.uuid,
        sub: m.sub,
        ..m1
    }
}

proof fn lemma_scan_keyed(
    key: Seq<char>,
    v: Option<Seq<char>>,
    m1: ItemModel,
    m2: ItemModel,
    ws: Seq<Seq<char>>,
)
    requires
        v is None ==> m2 == m1,
        v matches Some(x) ==> step(key + x, m1, ws) == Scanned::Ok((m2, ws)),
    ensures
        scan(keyed(key, v), m1, ws) == Scanned::Ok((m2, ws)),
{
    match v {
        Some(x) => {
            assert(keyed(key, v) == seq![key + x]);
            lemma_scan_one(key + x, m1, ws);
        },
        None => {
            assert(keyed(key, v) == Seq::<Seq<char>>::empty());
        },
    }
}

proof fn lemma_scan_ext(m: ItemModel, m1: ItemModel, ws: Seq<Seq<char>>)
    requires
        fields_ok(m),
        m1.due is None,
        m1.recurrence is None,
        m1.threshold is None,
        m1.uuid is None,
        m1.sub is None,
    ensures
        scan(ext_words(m), m1, ws) == Scanned::Ok((with_ext(m1, m), ws)),
{
    let e1 = keyed(due_key(), opt_date_text(m.due));
    let rt = match m.recurrence {
        Some(r) => Some(r.text()),
        None => None,
    };
    let e2 = keyed(rec_key(), rt);
    let e3 = keyed(threshold_key(), opt_date_text(m.threshold));
    let e4 = keyed(uuid_key(), opt_id_text(m.uuid));
    let e5 = keyed(sub_key(), opt_id_text(m.sub));
    let a1 = ItemModel { due: m.due, ..m1 };
    let a2 = ItemModel { recurrence: m.recurrence, ..a1 };
    let a3 = ItemModel { threshold: m.threshold, ..a2 };
    let a4 = ItemModel { uuid: m.uuid, ..a3 };
    let a5 = ItemModel { sub: m.sub, ..a4 };
    if let Some(d) = m.due {
        lemma_date_text(d);
        let w = due_key() + d.text();
        lemma_payload_own(due_key(), d.text());
        assert(w[0] == 'd');
        assert(project_of(w) is None && context_of(w) is None);
    }
    lemma_scan_keyed(due_key(), opt_date_text(m.due), m1, a1, ws);
    if let Some(r) = m.recurrence {
        lemma_recurrence_text(r);
        let w = rec_key() + r.text();
        lemma_payload_own(rec_key(), r.text());
        assert(w[0] == 'r');
        lemma_payload_other(w, due_key());
        assert(project_of(w) is None && context_of(w) is None);
    }
    lemma_scan_keyed(rec_key(), rt, a1, a2, ws);
    if let Some(d) = m.threshold {
        lemma_date_text(d);
        let w = threshold_key() + d.text();
        lemma_payload_own(threshold_key(), d.text());
        assert(w[0] == 't');
        lemma_payload_other(w, due_key());
        lemma_payload_other(w, rec_key());
        assert(project_of(w) is None && context_of(w) is None);
    }
    lemma_scan_keyed(threshold_key(), opt_date_text(m.threshold), a2, a3, ws);
    if let Some(u) = m.uuid {
        lemma_id_text(u);
        let w = uuid_key() + id_text(u);
        lemma_payload_own(uuid_key(), id_text(u));
        assert(w[0] == 'u');
        lemma_payload_other(w, due_key());
        lemma_payload_other(w, rec_key());
        lemma_payload_other(w, threshold_key());
        assert(project_of(w) is None && context_of(w) is None);
    }
    lemma_scan_keyed(uuid_key(), opt_id_text(m.uuid), a3, a4, ws);
    if let Some(u) = m.sub {
        lemma_id_text(u);
        let w = sub_key() + id_text(u);
        lemma_payload_own(sub_key(), id_text(u));
        assert(w[0] == 's');
        lemma_payload_other(w, due_key());
        lemma_payload_other(w, rec_key());
        lemma_payload_other(w, threshold_key());
        lemma_payload_other(w, uuid_key());
        assert(project_of(w) is None && context_of(w) is None);
    }
    lemma_scan_keyed(sub_key(), opt_id_text(m.sub), a4, a5, ws);
    lemma_scan_concat(e1, e2, m1, ws);
    lemma_scan_concat(e1 + e2, e3, m1, ws);
    lemma_scan_concat(e1 + e2 + e3, e4, m1, ws);
    lemma_scan_concat(e1 + e2 + e3 + e4, e5, m1, ws);
    assert(ext_words(m) == e1 + e2 + e3 + e4 + e5);
    assert(a5 == with_ext(m1, m));
}


proof fn lemma_finish(m: ItemModel)
    requires
        fields_ok(m),
    ensures
        finish(rest_words(m), start_model(m.done, m.priority, m.completion_date, m.creation_date))
            == Ok::<ItemModel, TodoItemParseError>(m),
{
    let m0 = start_model(m.done, m.priority, m.completion_date, m.creation_date);
    let w = tokens(m.description);
    let pw = project_words(m.projects);
    let cw = context_words(m.contexts);
    let ew = ext_words(m);
    assert(rest_words(m) =~= w + (pw + cw + ew));
    lemma_scan_plain(w, m0, seq![]);
    lemma_scan_concat(w, pw + cw + ew, m0, seq![]);
    assert(Seq::<Seq<char>>::empty() + w =~= w);
    lemma_scan_projects(m.projects, m0, w);
    let m1 = ItemModel { projects: m0.projects + m.projects, ..m0 };
    lemma_scan_contexts(m.contexts, m1, w);
    let m2 = ItemModel { contexts: m1.contexts + m.contexts, ..m1 };
    lemma_scan_ext(m, m2, w);
    lemma_scan_concat(pw, cw, m0, w);
    lemma_scan_concat(pw + cw, ew, m0, w);
    assert(m0.projects + m.projects =~= m.projects);
    assert(m1.contexts + m.contexts =~= m.contexts);
    let done = with_ext(m2, m);
    assert(ItemModel { description: join(w), ..done } == m);
}

pub open spec fn rank_text(p: u8) -> Seq<char> {
    TodoPriority { priority: Some(p) }.text()
}

proof fn lemma_lead_facts(m: ItemModel)
    requires
        fields_ok(m),
    ensures
        m.priority matches Some(p) ==> priority_of(rank_text(p)) == Some(p) && priority_shaped(
            rank_text(p),
        ) && rank_text(p).len() == 3,
        m.completion_date matches Some(d) ==> date_of(d.text()) == Some(d) && d.text()[0] != '('
            && d.text() != seq!['x'],
        m.creation_date matches Some(d) ==> date_of(d.text()) == Some(d) && d.text()[0] != '('
            && d.text() != seq!['x'],
{
    if let Some(p) = m.priority {
        lemma_priority_text(TodoPriority { priority: Some(p) });
    }
    if let Some(d) = m.completion_date {
        lemma_date_text(d);
    }
    if let Some(d) = m.creation_date {
        lemma_date_text(d);
    }
}

pub open spec fn priority_words(m: ItemModel) -> Seq<Seq<char>> {
    match m.priority {
        Some(p) => seq![rank_text(p)],
        None => seq![],
    }
}

#[verifier::rlimit(40)]
proof fn lemma_parse_done(m: ItemModel)
    requires
        valid_record(m),
        m.done,
    ensures
        parse_words(lead_words(m) + rest_words(m)) == Ok::<
            ItemModel,
            TodoItemParseError,
        >(m),
{
    lemma_finish(m);
    lemma_lead_facts(m);
    let rest = rest_words(m);
    let ps = priority_words(m);
    let c = m.completion_date->0;
    let r = m.creation_date->0;
    let t = lead_words(m) + rest;
    let n = t.len() as int;
    assert(lead_words(m) =~= seq![seq!['x']] + ps + seq![c.text(), r.text()]);
    let i = ps.len() as int + 1;
    assert(t[0] == seq!['x']);
    if m.priority is None {
        assert(t[1] == c.text());
    } else {
        assert(t[1] == ps[0]);
    }
    assert(t[i] == c.text());
    assert(t[i + 1] == r.text());
    assert(t.subrange(i + 2, n) =~= rest);
    assert(parse_dates(t, true, m.priority, i) == finish(
        rest,
        start_model(true, m.priority, Some(c), Some(r)),
    ));
}

#[verifier::rlimit(40)]
proof fn lemma_parse_open(m: ItemModel)
    requires
        valid_record(m),
        !m.done,
    ensures
        parse_words(lead_words(m) + rest_words(m)) == Ok::<
            ItemModel,
            TodoItemParseError,
        >(m),
{
    lemma_finish(m);
    lemma_lead_facts(m);
    let rest = rest_words(m);
    let ps = priority_words(m);
    let t = lead_words(m) + rest;
    let n = t.len() as int;
    let i = ps.len() as int;
    let x: Seq<char> = seq!['x'];
    if m.creation_date is Some {
        let r = m.creation_date->0;
        assert(lead_words(m) =~= ps + seq![r.text()]);
        assert(t[i] == r.text());
        if m.priority is Some {
            assert(t[0] == ps[0]);
        }
        assert(t[0] != x);
        assert(t.subrange(i + 1, n) =~= rest);
        assert(parse_dates(t, false, m.priority, i) == finish(
            rest,
            start_model(false, m.priority, None, Some(r)),
        ));
    } else {
        assert(lead_words(m) =~= ps);
        assert(t.subrange(i, n) =~= rest);
        if i < n {
            assert(t[i] == rest[0]);
        }
        if m.priority is Some {
            assert(t[0] == ps[0]);
            assert(t[0] != x);
        }
        assert(parse_dates(t, false, m.priority, i) == finish(
            rest,
            start_model(false, m.priority, None, None),
        ));
    }
}

/// Reading the line of a valid record gives back the same record.
pub proof fn lemma_round_trip(m: ItemModel)
    requires
        valid_record(m),
    ensures
        parse_line(format_line(m)) == Ok::<ItemModel, TodoItemParseError>(m),
{
    lemma_format_tokens(m);
    assert(tokens(format_line(m)) =~= lead_words(m) + rest_words(m));
    if m.done {
        lemma_parse_done(m);
    } else {
        lemma_parse_open(m);
    }
}


proof fn lemma_split_all_words(s: Seq<char>, cur: Seq<char>)
    requires
        forall|i: int| 0 <= i < cur.len() ==> !is_space(#[trigger] cur[i]),
    ensures
        all_words(split_from(s, cur)),
    decreases s.len(),
{
    if s.len() == 0 {
    } else if is_space(s[0]) {
        lemma_split_all_words(s.drop_first(), seq![]);
        if cur.len() > 0 {
            lemma_all_words_concat(seq![cur], split_from(s.drop_first(), seq![]));
        }
    } else {
        let next = cur.push(s[0]);
        assert forall|i: int| 0 <= i < next.len() implies !is_space(#[trigger] next[i]) by {
            if i < cur.len() {
                assert(next[i] == cur[i]);
            }
        }
        lemma_split_all_words(s.drop_first(), next);
    }
}

/// Every word that a line splits into is a word.
pub proof fn lemma_tokens_are_words(s: Seq<char>)
    ensures
        all_words(tokens(s)),
{
    lemma_split_all_words(s, seq![]);
}

pub proof fn lemma_date_of_wf(s: Seq<char>)
    ensures
        date_of(s) matches Some(d) ==> d.wf(),
{
}

/// What scanning keeps well formed.
pub open spec fn scan_fields_ok(m: ItemModel, words: Seq<Seq<char>>) -> bool {
    &&& date_ok(m.due)
    &&& date_ok(m.threshold)
    &&& m.recurrence matches Some(r) ==> r.wf()
    &&& all_words(m.projects)
    &&& all_words(m.contexts)
    &&& all_words(words)
    &&& forall|i: int| 0 <= i < words.len() ==> plain_word(#[trigger] words[i])
}

proof fn lemma_step_ok(w: Seq<char>, m: ItemModel, words: Seq<Seq<char>>)
    requires
        is_word(w),
        scan_fields_ok(m, words),
    ensures
        step(w, m, words) matches Ok(p) ==> scan_fields_ok(p.0, p.1) && p.0.done == m.done
            && p.0.priority == m.priority && p.0.completion_date == m.completion_date
            && p.0.creation_date == m.creation_date,
{
    if project_of(w) is Some {
        let n = w.drop_first();
        assert(is_word(n)) by {
            assert forall|i: int| 0 <= i < n.len() implies !is_space(#[trigger] n[i]) by {
                assert(n[i] == w[i + 1]);
            }
        }
        lemma_all_words_concat(m.projects, seq![n]);
        assert(m.projects.push(n) =~= m.projects + seq![n]);
    } else if context_of(w) is Some {
        let n = w.drop_first();
        assert(is_word(n)) by {
            assert forall|i: int| 0 <= i < n.len() implies !is_space(#[trigger] n[i]) by {
                assert(n[i] == w[i + 1]);
            }
        }
        lemma_all_words_concat(m.contexts, seq![n]);
        assert(m.contexts.push(n) =~= m.contexts + seq![n]);
    } else if payload(w, due_key()) is Some {
        lemma_date_of_wf(payload(w, due_key())->0);
    } else if payload(w, rec_key()) is Some {
    } else if payload(w, threshold_key()) is Some {
        lemma_date_of_wf(payload(w, threshold_key())->0);
    } else if payload(w, uuid_key()) is Some {
    } else if payload(w, sub_key()) is Some {
    } else {
        let ws2 = words.push(w);
        lemma_all_words_concat(words, seq![w]);
        assert(ws2 =~= words + seq![w]);
        assert forall|i: int| 0 <= i < ws2.len() implies plain_word(#[trigger] ws2[i]) by {
            if i < words.len() {
                assert(ws2[i] == words[i]);
            }
        }
    }
}

proof fn lemma_scan_ok(ws: Seq<Seq<char>>, m: ItemModel, words: Seq<Seq<char>>)
    requires
        all_words(ws),
        scan_fields_ok(m, words),
    ensures
        scan(ws, m, words) matches Ok(p) ==> scan_fields_ok(p.0, p.1) && p.0.done == m.done
            && p.0.priority == m.priority && p.0.completion_date == m.completion_date
            && p.0.creation_date == m.creation_date,
    decreases ws.len(),
{
    if ws.len() > 0 {
        assert(is_word(ws[0]));
        lemma_step_ok(ws[0], m, words);
        let rest = ws.drop_first();
        assert(all_words(rest)) by {
            assert forall|i: int| 0 <= i < rest.len() implies is_word(#[trigger] rest[i]) by {
                assert(rest[i] == ws[i + 1]);
            }
        }
        match step(ws[0], m, words) {
            Ok(p) => lemma_scan_ok(rest, p.0, p.1),
            Err(e) => {},
        }
    }
}

proof fn lemma_finish_ok(rest: Seq<Seq<char>>, m0: ItemModel)
    requires
        all_words(rest),
        m0.description == Seq::<char>::empty(),
        m0.projects == Seq::<Seq<char>>::empty(),
        m0.contexts == Seq::<Seq<char>>::empty(),
        m0.due is None,
        m0.recurrence is None,
        m0.threshold is None,
        m0.done ==> m0.completion_date is Some && m0.creation_date is Some,
        !m0.done ==> m0.completion_date is None,
        m0.priority matches Some(p) ==> p < 26,
        date_ok(m0.completion_date),
        date_ok(m0.creation_date),
    ensures
        finish(rest, m0) matches Ok(m) ==> fields_ok(m),
{
    assert(scan_fields_ok(m0, seq![]));
    lemma_scan_ok(rest, m0, seq![]);
    match scan(rest, m0, seq![]) {
        Ok(p) => {
            lemma_tokens_join(p.1);
            let m = ItemModel { description: join(p.1), ..p.0 };
            assert(tokens(m.description) == p.1);
        },
        Err(e) => {},
    }
}

proof fn lemma_subrange_words(t: Seq<Seq<char>>, i: int)
    requires
        all_words(t),
        0 <= i <= t.len(),
    ensures
        all_words(t.subrange(i, t.len() as int)),
{
    let r = t.subrange(i, t.len() as int);
    assert forall|k: int| 0 <= k < r.len() implies is_word(#[trigger] r[k]) by {
        assert(r[k] == t[i + k]);
    }
}

/// A record read from a line has fields that its own line can carry.
pub proof fn lemma_parsed_fields_ok(s: Seq<char>)
    ensures
        parse_line(s) matches Ok(m) ==> fields_ok(m),
{
    let t = tokens(s);
    lemma_tokens_are_words(s);
    let n = t.len() as int;
    let done = t.len() > 0 && t[0] == seq!['x'];
    let i: int = if done {
        1
    } else {
        0
    };
    let prio: Option<u8> = if i < n && priority_shaped(t[i]) {
        priority_of(t[i])
    } else {
        None
    };
    let j: int = if i < n && priority_shaped(t[i]) {
        i + 1
    } else {
        i
    };
    if j <= n {
        if done {
            if j + 1 < n && date_of(t[j]) is Some && date_of(t[j + 1]) is Some {
                lemma_date_of_wf(t[j]);
                lemma_date_of_wf(t[j + 1]);
                lemma_subrange_words(t, j + 2);
                lemma_finish_ok(
                    t.subrange(j + 2, n),
                    start_model(done, prio, date_of(t[j]), date_of(t[j + 1])),
                );
            }
        } else {
            if j < n {
                lemma_date_of_wf(t[j]);
                lemma_subrange_words(t, j + 1);
                lemma_finish_ok(
                    t.subrange(j + 1, n),
                    start_model(done, prio, None, date_of(t[j])),
                );
            }
            lemma_subrange_words(t, j);
            lemma_finish_ok(t.subrange(j, n), start_model(done, prio, None, None));
        }
    }
}

/// Formatting what was read reaches a fixed point: the formatted line reads
/// back as the same record, so formatting it again gives the same line. This
/// holds for every line that reads, unless the reformatted record's first
/// word after the priority would be taken for the done marker, a priority or
/// a creation date (as in `+a x`, which reformats as `x +a`).
pub proof fn lemma_format_fixed_point(line: Seq<char>)
    requires
        parse_line(line) is Ok,
        lead_ok(parse_line(line)->Ok_0),
    ensures
        parse_line(format_line(parse_line(line)->Ok_0)) == parse_line(line),
        format_line(parse_line(format_line(parse_line(line)->Ok_0))->Ok_0) == format_line(
            parse_line(line)->Ok_0,
        ),
{
    lemma_parsed_fields_ok(line);
    lemma_round_trip(parse_line(line)->Ok_0);
}

} // verus!
