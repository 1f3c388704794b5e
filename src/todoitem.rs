//! One task record and its line of text: the record parser and formatter.

use vstd::prelude::*;
use vstd::string::*;
use crate::date::{date_of, Date};
use crate::ident::{id_of, id_text, uuid_fresh, uuid_read, uuid_write};
use crate::text::{has_prefix, join, join_words, split_words, starts_with, tail_from, tokens, views};
use crate::todocontext::{context_of, TodoContext};
use crate::todopriority::{priority_of, priority_shaped, TodoPriority};
use crate::todoproject::{project_of, TodoProject};
use crate::todorecurrence::{recurrence_of, TodoRecurrence};

verus! {

#[derive(Clone, Debug, PartialEq, Eq)]
pub struct TodoItem {
    pub done: bool,
    pub priority: TodoPriority,
    pub completion_date: Option<Date>,
    pub creation_date: Option<Date>,
    pub description: String,
    pub projects: Vec<TodoProject>,
    pub contexts: Vec<TodoContext>,
    pub due: Option<Date>,
    pub recurrence: Option<TodoRecurrence>,
    pub threshold: Option<Date>,
    pub uuid: Option<u128>,
    pub sub: Option<u128>,
}

/// Which field of a line could not be read.
#[derive(Clone, Copy, Debug, PartialEq, Eq, Structural)]
pub enum TodoItemParseError {
    Priority,
    CompletionDate,
    CreationDate,
    Due,
    Recurrence,
    Threshold,
    Uuid,
    Sub,
}

/// A record as plain values.
pub struct ItemModel {
    pub done: bool,
    pub priority: Option<u8>,
    pub completion_date: Option<Date>,
    pub creation_date: Option<Date>,
    pub description: Seq<char>,
    pub projects: Seq<Seq<char>>,
    pub contexts: Seq<Seq<char>>,
    pub due: Option<Date>,
    pub recurrence: Option<TodoRecurrence>,
    pub threshold: Option<Date>,
    pub uuid: Option<u128>,
    pub sub: Option<u128>,
}

pub open spec fn project_names(v: Seq<TodoProject>) -> Seq<Seq<char>> {
    v.map_values(|p: TodoProject| p.name@)
}

pub open spec fn context_names(v: Seq<TodoContext>) -> Seq<Seq<char>> {
    v.map_values(|c: TodoContext| c.name@)
}

impl View for TodoItem {
    type V = ItemModel;

    open spec fn view(&self) -> ItemModel {
        ItemModel {
            done: self.done,
            priority: self.priority.priority,
            completion_date: self.completion_date,
            creation_date: self.creation_date,
            description: self.description@,
            projects: project_names(self.projects@),
            contexts: context_names(self.contexts@),
            due: self.due,
            recurrence: self.recurrence,
            threshold: self.threshold,
            uuid: self.uuid,
            sub: self.sub,
        }
    }
}

pub open spec fn date_ok(d: Option<Date>) -> bool {
    d matches Some(x) ==> x.wf()
}

pub open spec fn due_key() -> Seq<char> {
    seq!['d', 'u', 'e', ':']
}

pub open spec fn rec_key() -> Seq<char> {
    seq!['r', 'e', 'c', ':']
}

pub open spec fn threshold_key() -> Seq<char> {
    seq!['t', ':']
}

pub open spec fn uuid_key() -> Seq<char> {
    seq!['u', 'u', 'i', 'd', ':']
}

pub open spec fn sub_key() -> Seq<char> {
    seq!['s', 'u', 'b', ':']
}

/// What follows `key` in `w`, when `w` starts with `key` and has more.
pub open spec fn payload(w: Seq<char>, key: Seq<char>) -> Option<Seq<char>> {
    if has_prefix(w, key) && w.len() > key.len() {
        Some(w.subrange(key.len() as int, w.len() as int))
    } else {
        None
    }
}

/// A word that the scan keeps as description text.
pub open spec fn plain_word(w: Seq<char>) -> bool {
    &&& project_of(w) is None
    &&& context_of(w) is None
    &&& payload(w, due_key()) is None
    &&& payload(w, rec_key()) is None
    &&& payload(w, threshold_key()) is None
    &&& payload(w, uuid_key()) is None
    &&& payload(w, sub_key()) is None
}

pub type Scanned = Result<(ItemModel, Seq<Seq<char>>), TodoItemParseError>;

/// One word after the dates: a tag, an extension field, or description text.
pub open spec fn step(w: Seq<char>, m: ItemModel, words: Seq<Seq<char>>) -> Scanned {
    if project_of(w) is Some {
        Ok((ItemModel { projects: m.projects.push(project_of(w)->0), ..m }, words))
    } else if context_of(w) is Some {
        Ok((ItemModel { contexts: m.contexts.push(context_of(w)->0), ..m }, words))
    } else if payload(w, due_key()) is Some {
        match date_of(payload(w, due_key())->0) {
            Some(d) => Ok((ItemModel { due: Some(d), ..m }, words)),
            None => Err(TodoItemParseError::Due),
        }
    } else if payload(w, rec_key()) is Some {
        match recurrence_of(payload(w, rec_key())->0) {
            Some(r) => Ok((ItemModel { recurrence: Some(r), ..m }, words)),
            None => Err(TodoItemParseError::Recurrence),
        }
    } else if payload(w, threshold_key()) is Some {
        match date_of(payload(w, threshold_key())->0) {
            Some(d) => Ok((ItemModel { threshold: Some(d), ..m }, words)),
            None => Err(TodoItemParseError::Threshold),
        }
    } else if payload(w, uuid_key()) is Some {
        match id_of(payload(w, uuid_key())->0) {
            Some(u) => Ok((ItemModel { uuid: Some(u), ..m }, words)),
            None => Err(TodoItemParseError::Uuid),
        }
    } else if payload(w, sub_key()) is Some {
        match id_of(payload(w, sub_key())->0) {
            Some(u) => Ok((ItemModel { sub: Some(u), ..m }, words)),
            None => Err(TodoItemParseError::Sub),
        }
    } else {
        Ok((m, words.push(w)))
    }
}

/// The words after the dates, in order; the first failing word decides the error.
pub open spec fn scan(ws: Seq<Seq<char>>, m: ItemModel, words: Seq<Seq<char>>) -> Scanned
    decreases ws.len(),
{
    if ws.len() == 0 {
        Ok((m, words))
    } else {
        match step(ws[0], m, words) {
            Ok(p) => scan(ws.drop_first(), p.0, p.1),
            Err(e) => Err(e),
        }
    }
}

pub open spec fn start_model(
    done: bool,
    priority: Option<u8>,
    completion_date: Option<Date>,
    creation_date: Option<Date>,
) -> ItemModel {
    ItemModel {
        done,
        priority,
        completion_date,
        creation_date,
        description: seq![],
        projects: seq![],
        contexts: seq![],
        due: None,
        recurrence: None,
        threshold: None,
        uuid: None,
        sub: None,
    }
}

pub open spec fn finish(rest: Seq<Seq<char>>, m: ItemModel) -> Result<
    ItemModel,
    TodoItemParseError,
> {
    match scan(rest, m, seq![]) {
        Ok(p) => Ok(ItemModel { description: join(p.1), ..p.0 }),
        Err(e) => Err(e),
    }
}

/// The dates at word `i`: both required on a done record, the creation date
/// optional on an open one.
pub open spec fn parse_dates(t: Seq<Seq<char>>, done: bool, priority: Option<u8>, i: int) -> Result<
    ItemModel,
    TodoItemParseError,
> {
    let n = t.len() as int;
    if done {
        if i >= n || date_of(t[i]) is None {
            Err(TodoItemParseError::CompletionDate)
        } else if i + 1 >= n || date_of(t[i + 1]) is None {
            Err(TodoItemParseError::CreationDate)
        } else {
            finish(t.subrange(i + 2, n), start_model(done, priority, date_of(t[i]), date_of(t[i + 1])))
        }
    } else if i < n && date_of(t[i]) is Some {
        finish(t.subrange(i + 1, n), start_model(done, priority, None, date_of(t[i])))
    } else {
        finish(t.subrange(i, n), start_model(done, priority, None, None))
    }
}

/// A record read from its words.
pub open spec fn parse_words(t: Seq<Seq<char>>) -> Result<ItemModel, TodoItemParseError> {
    let done = t.len() > 0 && t[0] == seq!['x'];
    let i: int = if done {
        1
    } else {
        0
    };
    if i < t.len() && priority_shaped(t[i]) {
        match priority_of(t[i]) {
            Some(p) => parse_dates(t, done, Some(p), i + 1),
            None => Err(TodoItemParseError::Priority),
        }
    } else {
        parse_dates(t, done, None, i)
    }
}

/// A record read from one line of text.
pub open spec fn parse_line(s: Seq<char>) -> Result<ItemModel, TodoItemParseError> {
    parse_words(tokens(s))
}

/// Each word followed by a space.
pub open spec fn spaced_after(ts: Seq<Seq<char>>) -> Seq<char>
    decreases ts.len(),
{
    if ts.len() == 0 {
        seq![]
    } else {
        spaced_after(ts.drop_last()) + ts.last() + seq![' ']
    }
}

/// Each word preceded by a space.
pub open spec fn spaced_before(ts: Seq<Seq<char>>) -> Seq<char>
    decreases ts.len(),
{
    if ts.len() == 0 {
        seq![]
    } else {
        spaced_before(ts.drop_last()) + seq![' '] + ts.last()
    }
}

pub open spec fn date_word(d: Option<Date>) -> Seq<Seq<char>> {
    match d {
        Some(x) => seq![x.text()],
        None => seq![],
    }
}

/// The words before the description: `x`, the priority, the dates.
pub open spec fn lead_words(m: ItemModel) -> Seq<Seq<char>> {
    (if m.done {
        seq![seq!['x']]
    } else {
        seq![]
    }) + (match m.priority {
        Some(p) => seq![TodoPriority { priority: Some(p) }.text()],
        None => seq![],
    }) + (if m.done {
        date_word(m.completion_date) + date_word(m.creation_date)
    } else {
        date_word(m.creation_date)
    })
}

pub open spec fn keyed(key: Seq<char>, v: Option<Seq<char>>) -> Seq<Seq<char>> {
    match v {
        Some(x) => seq![key + x],
        None => seq![],
    }
}

pub open spec fn opt_date_text(d: Option<Date>) -> Option<Seq<char>> {
    match d {
        Some(x) => Some(x.text()),
        None => None,
    }
}

pub open spec fn opt_id_text(u: Option<u128>) -> Option<Seq<char>> {
    match u {
        Some(x) => Some(id_text(x)),
        None => None,
    }
}

pub open spec fn project_words(ns: Seq<Seq<char>>) -> Seq<Seq<char>> {
    ns.map_values(|n: Seq<char>| seq!['+'] + n)
}

pub open spec fn context_words(ns: Seq<Seq<char>>) -> Seq<Seq<char>> {
    ns.map_values(|n: Seq<char>| seq!['@'] + n)
}

pub open spec fn ext_words(m: ItemModel) -> Seq<Seq<char>> {
    keyed(due_key(), opt_date_text(m.due)) + keyed(
        rec_key(),
        match m.recurrence {
            Some(r) => Some(r.text()),
            None => None,
        },
    ) + keyed(threshold_key(), opt_date_text(m.threshold)) + keyed(uuid_key(), opt_id_text(m.uuid))
        + keyed(sub_key(), opt_id_text(m.sub))
}

/// The words after the description: tags, then the extension fields.
pub open spec fn tail_words(m: ItemModel) -> Seq<Seq<char>> {
    project_words(m.projects) + context_words(m.contexts) + ext_words(m)
}

pub proof fn lemma_spaced_after_push(ts: Seq<Seq<char>>, x: Seq<char>)
    ensures
        spaced_after(ts.push(x)) == spaced_after(ts) + x + seq![' '],
{
    assert(ts.push(x).drop_last() =~= ts);
}

pub proof fn lemma_spaced_before_push(ts: Seq<Seq<char>>, x: Seq<char>)
    ensures
        spaced_before(ts.push(x)) == spaced_before(ts) + seq![' '] + x,
{
    assert(ts.push(x).drop_last() =~= ts);
}

/// The line of a record.
pub open spec fn format_line(m: ItemModel) -> Seq<char> {
    spaced_after(lead_words(m)) + m.description + spaced_before(tail_words(m))
}

/// The record linked to a parent's identifier.
pub open spec fn with_sub(m: ItemModel, u: Option<u128>) -> ItemModel {
    ItemModel { sub: u, ..m }
}

/// The record carrying identifier `u`.
pub open spec fn with_uuid(m: ItemModel, u: Option<u128>) -> ItemModel {
    ItemModel { uuid: u, ..m }
}

impl TodoItem {
    /// The values that the formatter and the date arithmetic can handle.
    pub open spec fn wf(self) -> bool {
        &&& self.priority.wf()
        &&& date_ok(self.completion_date)
        &&& date_ok(self.creation_date)
        &&& date_ok(self.due)
        &&& date_ok(self.threshold)
        &&& self.recurrence matches Some(r) ==> r.wf()
    }
}


pub(crate) fn copy_projects(v: &Vec<TodoProject>) -> (r: Vec<TodoProject>)
    ensures
        project_names(r@) == project_names(v@),
{
    let mut out: Vec<TodoProject> = Vec::new();
    let mut k: usize = 0;
    while k < v.len()
        invariant
            k <= v@.len(),
            out@.len() == k,
            forall|j: int| 0 <= j < k ==> (#[trigger] out@[j]).name@ == v@[j].name@,
        decreases v@.len() - k,
    {
        out.push(v[k].duplicate());
        k = k + 1;
    }
    assert(project_names(out@) =~= project_names(v@));
    out
}

pub(crate) fn copy_contexts(v: &Vec<TodoContext>) -> (r: Vec<TodoContext>)
    ensures
        context_names(r@) == context_names(v@),
{
    let mut out: Vec<TodoContext> = Vec::new();
    let mut k: usize = 0;
    while k < v.len()
        invariant
            k <= v@.len(),
            out@.len() == k,
            forall|j: int| 0 <= j < k ==> (#[trigger] out@[j]).name@ == v@[j].name@,
        decreases v@.len() - k,
    {
        out.push(v[k].duplicate());
        k = k + 1;
    }
    assert(context_names(out@) =~= context_names(v@));
    out
}

fn is_done_marker(w: &str) -> (r: bool)
    ensures
        r == (w@ == seq!['x']),
{
    if w.unicode_len() == 1 && w.get_char(0) == 'x' {
        assert(w@ =~= seq!['x']);
        true
    } else {
        false
    }
}

fn is_priority_shaped(w: &str) -> (r: bool)
    ensures
        r == priority_shaped(w@),
{
    w.unicode_len() == 3 && w.get_char(0) == '(' && w.get_char(2) == ')' && (w.get_char(1) as u32)
        < 0x80
}

/// The text after `key` when `w` starts with it and has more.
fn key_payload<'a>(w: &'a str, key: &str) -> (r: Option<&'a str>)
    ensures
        r matches Some(p) ==> payload(w@, key@) == Some(p@),
        r is None ==> payload(w@, key@) is None,
{
    let n = w.unicode_len();
    let k = key.unicode_len();
    if starts_with(w, key) && n > k {
        Some(tail_from(w, k))
    } else {
        None
    }
}

/// Files one word after the dates into `item` or `words`.
fn scan_word(item: &mut TodoItem, words: &mut Vec<String>, w: &str) -> (r: Result<
    (),
    TodoItemParseError,
>)
    requires
        old(item).wf(),
    ensures
        r is Ok ==> step(w@, old(item)@, views(old(words)@)) == Scanned::Ok(
            (final(item)@, views(final(words)@)),
        ) && final(item).wf(),
        r matches Err(e) ==> step(w@, old(item)@, views(old(words)@)) == Scanned::Err(e),
{
    proof {
        reveal_strlit("due:");
        reveal_strlit("rec:");
        reveal_strlit("t:");
        reveal_strlit("uuid:");
        reveal_strlit("sub:");
        assert("due:"@ =~= due_key());
        assert("rec:"@ =~= rec_key());
        assert("t:"@ =~= threshold_key());
        assert("uuid:"@ =~= uuid_key());
        assert("sub:"@ =~= sub_key());
    }
    let ghost m = item@;
    let n = w.unicode_len();
    if n > 1 && w.get_char(0) == '+' {
        let name = tail_from(w, 1).to_owned();
        assert(name@ =~= w@.drop_first());
        item.projects.push(TodoProject { name });
        assert(project_names(item.projects@) =~= m.projects.push(project_of(w@)->0));
        return Ok(());
    }
    if n > 1 && w.get_char(0) == '@' {
        let name = tail_from(w, 1).to_owned();
        assert(name@ =~= w@.drop_first());
        item.contexts.push(TodoContext { name });
        assert(context_names(item.contexts@) =~= m.contexts.push(context_of(w@)->0));
        return Ok(());
    }
    if let Some(p) = key_payload(w, "due:") {
        match Date::parse(p) {
            Some(d) => {
                item.due = Some(d);
                return Ok(());
            },
            None => return Err(TodoItemParseError::Due),
        }
    }
    if let Some(p) = key_payload(w, "rec:") {
        match TodoRecurrence::parse(p) {
            Ok(rule) => {
                item.recurrence = Some(rule);
                return Ok(());
            },
            Err(_) => return Err(TodoItemParseError::Recurrence),
        }
    }
    if let Some(p) = key_payload(w, "t:") {
        match Date::parse(p) {
            Some(d) => {
                item.threshold = Some(d);
                return Ok(());
            },
            None => return Err(TodoItemParseError::Threshold),
        }
    }
    if let Some(p) = key_payload(w, "uuid:") {
        match uuid_read(p) {
            Some(u) => {
                item.uuid = Some(u);
                return Ok(());
            },
            None => return Err(TodoItemParseError::Uuid),
        }
    }
    if let Some(p) = key_payload(w, "sub:") {
        match uuid_read(p) {
            Some(u) => {
                item.sub = Some(u);
                return Ok(());
            },
            None => return Err(TodoItemParseError::Sub),
        }
    }
    let ghost before = views(words@);
    words.push(w.to_owned());
    assert(views(words@) =~= before.push(w@));
    Ok(())
}

/// Appends `" " + key + value` and records the word in `tail`.
fn push_keyed(out: &mut String, key: &str, value: &str, Ghost(pre): Ghost<Seq<char>>, Ghost(tail): Ghost<Seq<Seq<char>>>)
    requires
        old(out)@ == pre + spaced_before(tail),
    ensures
        final(out)@ == pre + spaced_before(tail.push(key@ + value@)),
{
    proof {
        reveal_strlit(" ");
    }
    out.append(" ");
    out.append(key);
    out.append(value);
    proof {
        lemma_spaced_before_push(tail, key@ + value@);
    }
    assert(final(out)@ =~= pre + spaced_before(tail.push(key@ + value@)));
}

impl TodoItem {
    /// Writes the record as one line: `x`, priority, dates, description,
    /// projects, contexts, then `due:`, `rec:`, `t:`, `uuid:`, `sub:`.
    pub fn to_string(&self) -> (r: String)
        requires
            self.wf(),
        ensures
            r@ == format_line(self@),
    {
        let mut out = self.lead_text();
        out.append(self.description.as_str());
        let ghost pre = out@;
        assert(out@ =~= pre + spaced_before(Seq::<Seq<char>>::empty()));
        self.push_tags(&mut out, Ghost(pre));
        self.push_extensions(&mut out, Ghost(pre));
        out
    }

    fn lead_text(&self) -> (out: String)
        requires
            self.wf(),
        ensures
            out@ == spaced_after(lead_words(self@)),
    {
        let ghost m = self@;
        proof {
            reveal_strlit(" ");
            reveal_strlit("x");
        }
        let mut out = String::new();
        let ghost mut lead: Seq<Seq<char>> = seq![];
        if self.done {
            out.append("x");
            out.append(" ");
            proof {
                lemma_spaced_after_push(lead, seq!['x']);
                lead = lead.push(seq!['x']);
            }
            assert(out@ =~= spaced_after(lead));
        }
        let ghost lead_x = lead;
        if self.priority.priority.is_some() {
            let p = self.priority.to_string();
            out.append(p.as_str());
            out.append(" ");
            proof {
                lemma_spaced_after_push(lead, p@);
                lead = lead.push(p@);
            }
            assert(out@ =~= spaced_after(lead));
        }
        if self.done {
            if let Some(d) = self.completion_date {
                let dt = d.to_string();
                out.append(dt.as_str());
                out.append(" ");
                proof {
                    lemma_spaced_after_push(lead, dt@);
                    lead = lead.push(dt@);
                }
                assert(out@ =~= spaced_after(lead));
            }
        }
        let ghost lead_c = lead;
        if let Some(d) = self.creation_date {
            let dt = d.to_string();
            out.append(dt.as_str());
            out.append(" ");
            proof {
                lemma_spaced_after_push(lead, dt@);
                lead = lead.push(dt@);
            }
            assert(out@ =~= spaced_after(lead));
        }
        assert(lead =~= lead_words(m)) by {
            if self.done {
                assert(lead_x =~= seq![seq!['x']]);
            } else {
                assert(lead_x =~= Seq::<Seq<char>>::empty());
            }
            assert(lead_c =~= lead_x + (match m.priority {
                Some(p) => seq![TodoPriority { priority: Some(p) }.text()],
                None => Seq::<Seq<char>>::empty(),
            }) + (if m.done {
                date_word(m.completion_date)
            } else {
                Seq::<Seq<char>>::empty()
            }));
        }
        out
    }

    fn push_tags(&self, out: &mut String, Ghost(pre): Ghost<Seq<char>>)
        requires
            old(out)@ == pre,
        ensures
            final(out)@ == pre + spaced_before(project_words(self@.projects) + context_words(
                self@.contexts,
            )),
    {
        let ghost m = self@;
        let ghost mut tail: Seq<Seq<char>> = seq![];
        assert(out@ =~= pre + spaced_before(tail));
        assert(tail =~= project_words(m.projects.subrange(0, 0)));
        let mut k: usize = 0;
        while k < self.projects.len()
            invariant
                k <= self.projects@.len(),
                m == self@,
                tail == project_words(m.projects.subrange(0, k as int)),
                out@ == pre + spaced_before(tail),
            decreases self.projects@.len() - k,
        {
            let w = self.projects[k].to_string();
            proof {
                reveal_strlit(" ");
            }
            out.append(" ");
            out.append(w.as_str());
            proof {
                lemma_spaced_before_push(tail, w@);
                assert(project_words(m.projects.subrange(0, k + 1)) =~= tail.push(w@));
                tail = tail.push(w@);
            }
            assert(out@ =~= pre + spaced_before(tail));
            k = k + 1;
        }
        assert(m.projects.subrange(0, k as int) =~= m.projects);
        let ghost tail_p = tail;
        let mut k: usize = 0;
        assert(tail =~= tail_p + context_words(m.contexts.subrange(0, 0)));
        while k < self.contexts.len()
            invariant
                k <= self.contexts@.len(),
                m == self@,
                tail == tail_p + context_words(m.contexts.subrange(0, k as int)),
                out@ == pre + spaced_before(tail),
            decreases self.contexts@.len() - k,
        {
            let w = self.contexts[k].to_string();
            proof {
                reveal_strlit(" ");
            }
            out.append(" ");
            out.append(w.as_str());
            proof {
                lemma_spaced_before_push(tail, w@);
                assert(tail_p + context_words(m.contexts.subrange(0, k + 1)) =~= tail.push(w@));
                tail = tail.push(w@);
            }
            assert(out@ =~= pre + spaced_before(tail));
            k = k + 1;
        }
        assert(m.contexts.subrange(0, k as int) =~= m.contexts);
    }

    fn push_extensions(&self, out: &mut String, Ghost(pre): Ghost<Seq<char>>)
        requires
            self.wf(),
            old(out)@ == pre + spaced_before(project_words(self@.projects) + context_words(
                self@.contexts,
            )),
        ensures
            final(out)@ == pre + spaced_before(tail_words(self@)),
    {
        let ghost m = self@;
        proof {
            reveal_strlit("due:");
            reveal_strlit("rec:");
            reveal_strlit("t:");
            reveal_strlit("uuid:");
            reveal_strlit("sub:");
            assert("due:"@ =~= due_key());
            assert("rec:"@ =~= rec_key());
            assert("t:"@ =~= threshold_key());
            assert("uuid:"@ =~= uuid_key());
            assert("sub:"@ =~= sub_key());
        }
        let ghost mut tail = project_words(m.projects) + context_words(m.contexts);
        let ghost tail_c = tail;
        if let Some(d) = self.due {
            let v = d.to_string();
            push_keyed(out, "due:", v.as_str(), Ghost(pre), Ghost(tail));
            proof {
                tail = tail.push(due_key() + v@);
            }
        }
        assert(tail =~= tail_c + keyed(due_key(), opt_date_text(m.due)));
        let ghost tail_d = tail;
        if let Some(rule) = self.recurrence {
            let v = rule.to_string();
            push_keyed(out, "rec:", v.as_str(), Ghost(pre), Ghost(tail));
            proof {
                tail = tail.push(rec_key() + v@);
            }
        }
        assert(tail =~= tail_d + keyed(
            rec_key(),
            match m.recurrence {
                Some(r) => Some(r.text()),
                None => None,
            },
        ));
        let ghost tail_r = tail;
        if let Some(d) = self.threshold {
            let v = d.to_string();
            push_keyed(out, "t:", v.as_str(), Ghost(pre), Ghost(tail));
            proof {
                tail = tail.push(threshold_key() + v@);
            }
        }
        assert(tail =~= tail_r + keyed(threshold_key(), opt_date_text(m.threshold)));
        let ghost tail_t = tail;
        if let Some(u) = self.uuid {
            let v = uuid_write(u);
            push_keyed(out, "uuid:", v.as_str(), Ghost(pre), Ghost(tail));
            proof {
                tail = tail.push(uuid_key() + v@);
            }
        }
        assert(tail =~= tail_t + keyed(uuid_key(), opt_id_text(m.uuid)));
        let ghost tail_u = tail;
        if let Some(u) = self.sub {
            let v = uuid_write(u);
            push_keyed(out, "sub:", v.as_str(), Ghost(pre), Ghost(tail));
            proof {
                tail = tail.push(sub_key() + v@);
            }
        }
        assert(tail =~= tail_u + keyed(sub_key(), opt_id_text(m.sub)));
        assert(tail =~= tail_words(m));
    }

    /// Makes `child` a sub-task of `parent`, giving `parent` the identifier
    /// `id` when it has none. The updated parent comes back only when it
    /// changed.
    pub fn add_subtask_with(parent: TodoItem, child: TodoItem, id: u128) -> (r: (
        Option<TodoItem>,
        TodoItem,
    ))
        ensures
            parent.uuid matches Some(u) ==> r.0 is None && r.1@ == with_sub(child@, Some(u)),
            parent.uuid is None ==> (r.0 matches Some(p) && p@ == with_uuid(parent@, Some(id))
                && r.1@ == with_sub(child@, Some(id))),
    {
        let mut parent = parent;
        let mut child = child;
        match parent.uuid {
            Some(u) => {
                child.sub = Some(u);
                (None, child)
            },
            None => {
                parent.uuid = Some(id);
                child.sub = Some(id);
                (Some(parent), child)
            },
        }
    }

    /// Makes `child` a sub-task of `parent`, drawing a fresh identifier for
    /// `parent` when it has none.
    pub fn add_subtask(parent: TodoItem, child: TodoItem) -> (r: (Option<TodoItem>, TodoItem))
        ensures
            parent.uuid matches Some(u) ==> r.0 is None && r.1@ == with_sub(child@, Some(u)),
            parent.uuid is None ==> (r.0 matches Some(p) && p@.uuid is Some && p@ == with_uuid(
                parent@,
                p@.uuid,
            ) && r.1@ == with_sub(child@, p@.uuid)),
    {
        let id = match parent.uuid {
            Some(u) => u,
            None => uuid_fresh(),
        };
        TodoItem::add_subtask_with(parent, child, id)
    }

    /// Reads one line: `x`, priority, dates, then description words, tags
    /// and extension fields in any order.
    pub fn parse(s: &str) -> (r: Result<TodoItem, TodoItemParseError>)
        ensures
            r matches Ok(item) ==> parse_line(s@) == Ok::<ItemModel, TodoItemParseError>(item@)
                && item.wf(),
            r matches Err(e) ==> parse_line(s@) == Err::<ItemModel, TodoItemParseError>(e),
    {
        let toks = split_words(s);
        let ghost t = tokens(s@);
        let n = toks.len();
        assert(t.len() == n);
        let done = n > 0 && is_done_marker(toks[0].as_str());
        assert(n > 0 ==> t[0] == toks@[0]@);
        let mut i: usize = if done {
            1
        } else {
            0
        };
        let mut priority = TodoPriority { priority: None };
        if i < n && is_priority_shaped(toks[i].as_str()) {
            assert(t[i as int] == toks@[i as int]@);
            match TodoPriority::parse(toks[i].as_str()) {
                Ok(p) => {
                    priority = p;
                    i = i + 1;
                },
                Err(_) => return Err(TodoItemParseError::Priority),
            }
        }
        let ghost i0 = i;
        let mut completion_date: Option<Date> = None;
        let mut creation_date: Option<Date> = None;
        if done {
            if i >= n {
                return Err(TodoItemParseError::CompletionDate);
            }
            assert(t[i as int] == toks@[i as int]@);
            match Date::parse(toks[i].as_str()) {
                Some(d) => completion_date = Some(d),
                None => return Err(TodoItemParseError::CompletionDate),
            }
            i = i + 1;
            if i >= n {
                return Err(TodoItemParseError::CreationDate);
            }
            assert(t[i as int] == toks@[i as int]@);
            match Date::parse(toks[i].as_str()) {
                Some(d) => creation_date = Some(d),
                None => return Err(TodoItemParseError::CreationDate),
            }
            i = i + 1;
        } else if i < n {
            assert(t[i as int] == toks@[i as int]@);
            match Date::parse(toks[i].as_str()) {
                Some(d) => {
                    creation_date = Some(d);
                    i = i + 1;
                },
                None => {},
            }
        }
        let mut item = TodoItem {
            done,
            priority,
            completion_date,
            creation_date,
            description: String::new(),
            projects: Vec::new(),
            contexts: Vec::new(),
            due: None,
            recurrence: None,
            threshold: None,
            uuid: None,
            sub: None,
        };
        let mut words: Vec<String> = Vec::new();
        let ghost start = i;
        let ghost m0 = item@;
        assert(project_names(item.projects@) =~= Seq::<Seq<char>>::empty());
        assert(context_names(item.contexts@) =~= Seq::<Seq<char>>::empty());
        assert(views(words@) =~= Seq::<Seq<char>>::empty());
        assert(m0 == start_model(done, priority.priority, completion_date, creation_date));
        assert(parse_words(t) == finish(t.subrange(start as int, n as int), m0));
        while i < n
            invariant
                n == toks@.len(),
                t == views(toks@),
                t == tokens(s@),
                start <= i <= n,
                item.wf(),
                item.description@ == Seq::<char>::empty(),
                item.done == done,
                item.priority == priority,
                item.completion_date == completion_date,
                item.creation_date == creation_date,
                scan(t.subrange(start as int, n as int), m0, seq![]) == scan(
                    t.subrange(i as int, n as int),
                    item@,
                    views(words@),
                ),
                parse_words(t) == finish(t.subrange(start as int, n as int), m0),
            decreases n - i,
        {
            let ghost rest = t.subrange(i as int, n as int);
            assert(rest[0] == toks@[i as int]@);
            assert(rest.drop_first() =~= t.subrange(i + 1, n as int));
            let ghost m_before = item@;
            let ghost w_before = views(words@);
            match scan_word(&mut item, &mut words, toks[i].as_str()) {
                Ok(()) => {},
                Err(e) => {
                    assert(scan(rest, m_before, w_before) == Scanned::Err(e));
                    assert(scan(t.subrange(start as int, n as int), m0, seq![]) == Scanned::Err(e));
                    assert(finish(t.subrange(start as int, n as int), m0) == Err::<
                        ItemModel,
                        TodoItemParseError,
                    >(e));
                    assert(parse_line(s@) == parse_words(t));
                    return Err(e);
                },
            }
            i = i + 1;
        }
        assert(t.subrange(n as int, n as int) =~= Seq::<Seq<char>>::empty());
        item.description = join_words(&words);
        Ok(item)
    }
}

impl std::str::FromStr for TodoItem {
    type Err = TodoItemParseError;

    fn from_str(s: &str) -> Result<TodoItem, TodoItemParseError> {
        TodoItem::parse(s)
    }
}

} // verus!
