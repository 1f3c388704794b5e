//! The collection store: an ordered list of records bound to a file name,
//! with lenient loading, saving, and completion with recurrence.

use vstd::prelude::*;
use vstd::string::*;
use crate::date::{max_day, min_day, today, Date};
use crate::todoitem::{
    copy_contexts, copy_projects, format_line, parse_line, ItemModel, TodoItem,
};
use crate::todorecurrence::TodoRecurrence;

verus! {

#[derive(Debug, Clone, PartialEq)]
pub struct TodoLibrary {
    pub file_name: String,
    pub items: Vec<TodoItem>,
}

/// The lines of a text, split at `\n`; a final empty line is not counted.
pub open spec fn split_lines(s: Seq<char>, cur: Seq<char>) -> Seq<Seq<char>>
    decreases s.len(),
{
    if s.len() == 0 {
        if cur.len() > 0 {
            seq![cur]
        } else {
            seq![]
        }
    } else if s[0] == '\n' {
        seq![cur] + split_lines(s.drop_first(), seq![])
    } else {
        split_lines(s.drop_first(), cur.push(s[0]))
    }
}

pub open spec fn lines(s: Seq<char>) -> Seq<Seq<char>> {
    split_lines(s, seq![])
}

/// The records of the lines that parse, in order; the others are dropped.
pub open spec fn parsed_lines(ls: Seq<Seq<char>>) -> Seq<ItemModel>
    decreases ls.len(),
{
    if ls.len() == 0 {
        seq![]
    } else {
        let rest = parsed_lines(ls.drop_last());
        match parse_line(ls.last()) {
            Ok(m) => rest.push(m),
            Err(_) => rest,
        }
    }
}

/// Lines joined with `\n`.
pub open spec fn join_lines(ls: Seq<Seq<char>>) -> Seq<char>
    decreases ls.len(),
{
    if ls.len() == 0 {
        seq![]
    } else if ls.len() == 1 {
        ls[0]
    } else {
        join_lines(ls.drop_last()) + seq!['\n'] + ls.last()
    }
}

pub open spec fn models(v: Seq<TodoItem>) -> Seq<ItemModel> {
    v.map_values(|i: TodoItem| i@)
}

/// The text of a collection: each record's line, joined with `\n`.
pub open spec fn saved_text(ms: Seq<ItemModel>) -> Seq<char> {
    join_lines(ms.map_values(|m: ItemModel| format_line(m)))
}

/// The date that a completed rule counts from: the due date when strict,
/// otherwise the completion day.
pub open spec fn base_day(r: TodoRecurrence, due: Date, today: Date) -> int {
    if r.strict {
        due.day_number()
    } else {
        today.day_number()
    }
}

/// The day number of the next occurrence.
pub open spec fn next_due_day(r: TodoRecurrence, due: Date, today: Date) -> int {
    base_day(r, due, today) + r.span_days()
}

/// Completing `m` on `today` spawns a successor: it has a rule and a due
/// date, and the next due date lies within the calendar's range.
pub open spec fn spawns(m: ItemModel, today: Date) -> bool {
    &&& m.recurrence is Some
    &&& m.due is Some
    &&& min_day() <= next_due_day(m.recurrence->0, m.due->0, today) <= max_day()
}

/// The successor of `m`, created `today` and due on `due`.
pub open spec fn successor(m: ItemModel, today: Date, due: Date) -> ItemModel {
    ItemModel {
        done: false,
        priority: m.priority,
        completion_date: None,
        creation_date: Some(today),
        description: m.description,
        projects: m.projects,
        contexts: m.contexts,
        due: Some(due),
        recurrence: m.recurrence,
        threshold: m.threshold,
        uuid: None,
        sub: None,
    }
}

/// `m` marked done.
pub open spec fn marked_done(m: ItemModel) -> ItemModel {
    ItemModel { done: true, ..m }
}

/// The items after completing the one at `index`: it is marked done, the
/// others stay, and one more item follows when `grew`.
pub open spec fn marked_at(before: Seq<TodoItem>, after: Seq<TodoItem>, index: int, grew: bool) -> bool {
    let n = before.len() as int;
    &&& after.len() == if grew {
        n + 1
    } else {
        n
    }
    &&& after[index]@ == marked_done(before[index]@)
    &&& after[index].wf()
    &&& forall|j: int| 0 <= j < n && j != index ==> after[j] == before[j]
}

/// The item appended after `before` is the successor of the one at `index`,
/// completed `today`.
pub open spec fn successor_appended(
    before: Seq<TodoItem>,
    after: Seq<TodoItem>,
    index: int,
    today: Date,
) -> bool {
    let n = before.len() as int;
    let m = before[index]@;
    let d = after[n]@.due->0;
    &&& after[n]@.due is Some
    &&& d.wf()
    &&& d.day_number() == next_due_day(m.recurrence->0, m.due->0, today)
    &&& after[n]@ == successor(m, today, d)
    &&& after[n].wf()
}

/// The items after completing the one at `index` on `today`.
pub open spec fn completed_at(
    before: Seq<TodoItem>,
    after: Seq<TodoItem>,
    index: int,
    today: Date,
    spawned: bool,
) -> bool {
    &&& marked_at(before, after, index, spawned)
    &&& spawned ==> successor_appended(before, after, index, today)
}

/// A non-strict rule counts from the completion day: the next due date is
/// the completion day plus the rule's span, whatever the old due date was.
pub proof fn lemma_non_strict_counts_from_completion(
    r: TodoRecurrence,
    due: Date,
    other_due: Date,
    today: Date,
)
    requires
        !r.strict,
    ensures
        next_due_day(r, due, today) == today.day_number() + r.span_days(),
        next_due_day(r, due, today) == next_due_day(r, other_due, today),
{
}

/// A strict rule counts from the old due date: the next due date is the due
/// date plus the rule's span, whatever the completion day was.
pub proof fn lemma_strict_counts_from_due(r: TodoRecurrence, due: Date, today: Date, other_day: Date)
    requires
        r.strict,
    ensures
        next_due_day(r, due, today) == due.day_number() + r.span_days(),
        next_due_day(r, due, today) == next_due_day(r, due, other_day),
{
}

pub fn split_text_lines(s: &str) -> (r: Vec<String>)
    ensures
        r@.map_values(|l: String| l@) == lines(s@),
{
    let n = s.unicode_len();
    let mut out: Vec<String> = Vec::new();
    let mut start: usize = 0;
    let mut i: usize = 0;
    assert(s@.subrange(0, n as int) =~= s@);
    assert(s@.subrange(0, 0) =~= Seq::<char>::empty());
    assert(out@.map_values(|l: String| l@) + lines(s@) =~= lines(s@));
    while i < n
        invariant
            n == s@.len(),
            start <= i <= n,
            lines(s@) == out@.map_values(|l: String| l@) + split_lines(
                s@.subrange(i as int, n as int),
                s@.subrange(start as int, i as int),
            ),
        decreases n - i,
    {
        let c = s.get_char(i);
        let ghost rest = s@.subrange(i as int, n as int);
        assert(rest[0] == c);
        assert(rest.drop_first() =~= s@.subrange(i + 1, n as int));
        if c == '\n' {
            let ghost before = out@.map_values(|l: String| l@);
            let ghost cur = s@.subrange(start as int, i as int);
            let w = s.substring_char(start, i).to_owned();
            out.push(w);
            assert(out@.map_values(|l: String| l@) =~= before.push(cur));
            assert(s@.subrange(i + 1, i + 1) =~= Seq::<char>::empty());
            assert(before + (seq![cur] + split_lines(rest.drop_first(), seq![])) =~= before.push(
                cur,
            ) + split_lines(rest.drop_first(), seq![]));
            i = i + 1;
            start = i;
        } else {
            assert(s@.subrange(start as int, i as int).push(c) =~= s@.subrange(
                start as int,
                i + 1,
            ));
            i = i + 1;
        }
    }
    assert(s@.subrange(n as int, n as int) =~= Seq::<char>::empty());
    let ghost before = out@.map_values(|l: String| l@);
    if start < n {
        let w = s.substring_char(start, n).to_owned();
        out.push(w);
        assert(out@.map_values(|l: String| l@) =~= before.push(s@.subrange(
            start as int,
            n as int,
        )));
    } else {
        assert(before + Seq::<Seq<char>>::empty() =~= before);
    }
    out
}

impl TodoLibrary {
    pub open spec fn wf(self) -> bool {
        forall|i: int| 0 <= i < self.items@.len() ==> (#[trigger] self.items@[i]).wf()
    }

    pub fn new(file_name: String) -> (r: TodoLibrary)
        ensures
            r.file_name == file_name,
            r.items@.len() == 0,
    {
        TodoLibrary { file_name, items: Vec::new() }
    }

    /// Replaces the records with those of the lines of `text` that parse;
    /// lines that do not parse are dropped.
    pub fn load_text(&mut self, text: &str)
        ensures
            final(self).file_name == old(self).file_name,
            models(final(self).items@) == parsed_lines(lines(text@)),
            final(self).wf(),
    {
        let ls = split_text_lines(text);
        let ghost lv = ls@.map_values(|l: String| l@);
        let mut items: Vec<TodoItem> = Vec::new();
        let mut k: usize = 0;
        assert(lv.subrange(0, 0) =~= Seq::<Seq<char>>::empty());
        assert(models(items@) =~= Seq::<ItemModel>::empty());
        while k < ls.len()
            invariant
                k <= ls@.len(),
                lv == ls@.map_values(|l: String| l@),
                models(items@) == parsed_lines(lv.subrange(0, k as int)),
                forall|i: int| 0 <= i < items@.len() ==> (#[trigger] items@[i]).wf(),
            decreases ls@.len() - k,
        {
            let ghost pre = models(items@);
            assert(lv.subrange(0, k + 1).drop_last() =~= lv.subrange(0, k as int));
            assert(lv.subrange(0, k + 1).last() == ls@[k as int]@);
            match TodoItem::parse(ls[k].as_str()) {
                Ok(item) => {
                    items.push(item);
                    assert(models(items@) =~= pre.push(item@));
                },
                Err(_) => {},
            }
            k = k + 1;
        }
        assert(lv.subrange(0, k as int) =~= lv);
        self.items = items;
    }

    /// The records' lines joined with `\n`.
    pub fn save_text(&self) -> (r: String)
        requires
            self.wf(),
        ensures
            r@ == saved_text(models(self.items@)),
    {
        let ghost lv = models(self.items@).map_values(|m: ItemModel| format_line(m));
        let mut out = String::new();
        let mut k: usize = 0;
        proof {
            reveal_strlit("\n");
        }
        assert(lv.subrange(0, 0) =~= Seq::<Seq<char>>::empty());
        while k < self.items.len()
            invariant
                k <= self.items@.len(),
                self.wf(),
                "\n"@ == seq!['\n'],
                lv == models(self.items@).map_values(|m: ItemModel| format_line(m)),
                out@ == join_lines(lv.subrange(0, k as int)),
            decreases self.items@.len() - k,
        {
            assert(lv.subrange(0, k + 1).drop_last() =~= lv.subrange(0, k as int));
            assert(self.items@[k as int].wf());
            let line = self.items[k].to_string();
            assert(lv.subrange(0, k + 1).last() == line@);
            if k > 0 {
                out.append("\n");
            } else {
                assert(lv.subrange(0, 1) =~= seq![line@]);
            }
            out.append(line.as_str());
            k = k + 1;
        }
        assert(lv.subrange(0, k as int) =~= lv);
        out
    }

    pub fn add_item(&mut self, item: TodoItem)
        ensures
            final(self).file_name == old(self).file_name,
            final(self).items@ == old(self).items@.push(item),
            old(self).wf() && item.wf() ==> final(self).wf(),
    {
        self.items.push(item);
        assert(old(self).wf() && item.wf() ==> forall|i: int|
            0 <= i < self.items@.len() ==> (#[trigger] self.items@[i]).wf()) by {
            if old(self).wf() && item.wf() {
                assert forall|i: int| 0 <= i < self.items@.len() implies (
                #[trigger] self.items@[i]).wf() by {
                    if i < old(self).items@.len() {
                        assert(self.items@[i] == old(self).items@[i]);
                    }
                }
            }
        }
    }

    /// Removes and returns the record at `index`, if there is one.
    pub fn remove_item(&mut self, index: usize) -> (r: Option<TodoItem>)
        ensures
            final(self).file_name == old(self).file_name,
            index < old(self).items@.len() ==> r == Some(old(self).items@[index as int])
                && final(self).items@ == old(self).items@.remove(index as int),
            index >= old(self).items@.len() ==> r is None && final(self).items@ == old(
                self,
            ).items@,
            old(self).wf() ==> final(self).wf(),
    {
        if index < self.items.len() {
            let ghost before = self.items@;
            let removed = self.items.remove(index);
            assert forall|i: int| 0 <= i < self.items@.len() implies self.items@[i] == before[if i
                < index {
                i
            } else {
                i + 1
            }] by {}
            Some(removed)
        } else {
            None
        }
    }

    pub fn list_items(&self) -> (r: &Vec<TodoItem>)
        ensures
            r@ == self.items@,
    {
        &self.items
    }

    pub fn clear_items(&mut self)
        ensures
            final(self).file_name == old(self).file_name,
            final(self).items@.len() == 0,
            final(self).wf(),
    {
        self.items.clear();
    }

    /// Marks the record at `index` done, counting `today` as the completion
    /// day. When it has a rule and a due date, its successor is appended,
    /// due the rule's span after the due date (strict) or after `today`.
    /// Returns whether a successor was appended, or `None` for a position
    /// out of range.
    pub fn complete_item_on(&mut self, index: usize, today: Date) -> (r: Option<bool>)
        requires
            old(self).wf(),
            today.wf(),
        ensures
            final(self).file_name == old(self).file_name,
            final(self).wf(),
            index >= old(self).items@.len() ==> r is None && final(self).items@ == old(
                self,
            ).items@,
            index < old(self).items@.len() ==> r == Some(
                spawns(old(self).items@[index as int]@, today),
            ),
            index < old(self).items@.len() ==> completed_at(
                old(self).items@,
                final(self).items@,
                index as int,
                today,
                spawns(old(self).items@[index as int]@, today),
            ),
    {
        if index >= self.items.len() {
            return None;
        }
        let ghost before = self.items@;
        let ghost n = before.len() as int;
        assert(before[index as int].wf());
        let mut item = self.items.remove(index);
        item.done = true;
        let mut next: Option<TodoItem> = None;
        if let Some(rule) = item.recurrence {
            if let Some(due) = item.due {
                let base = if rule.strict {
                    due
                } else {
                    today
                };
                match base.plus_days(rule.span()) {
                    Some(nd) => {
                        let projects = copy_projects(&item.projects);
                        let contexts = copy_contexts(&item.contexts);
                        let s = TodoItem {
                            done: false,
                            priority: item.priority,
                            completion_date: None,
                            creation_date: Some(today),
                            description: item.description.clone(),
                            projects,
                            contexts,
                            due: Some(nd),
                            recurrence: Some(rule),
                            threshold: item.threshold,
                            uuid: None,
                            sub: None,
                        };
                        assert(s@ == successor(before[index as int]@, today, nd));
                        next = Some(s);
                    },
                    None => {},
                }
            }
        }
        assert(item@ == marked_done(before[index as int]@));
        self.items.insert(index, item);
        assert(self.items@.len() == n);
        assert forall|j: int| 0 <= j < n && j != index implies self.items@[j] == before[j] by {
            if j < index {
                assert(self.items@[j] == before[j]);
            } else {
                assert(self.items@[j] == before[j]);
            }
        }
        match next {
            Some(s) => {
                self.items.push(s);
                Some(true)
            },
            None => Some(false),
        }
    }

    /// Marks the record at `index` done on today's date; see
    /// `complete_item_on`.
    pub fn complete_item(&mut self, index: usize) -> (r: Option<bool>)
        requires
            old(self).wf(),
        ensures
            final(self).file_name == old(self).file_name,
            final(self).wf(),
            index >= old(self).items@.len() ==> r is None && final(self).items@ == old(
                self,
            ).items@,
            index < old(self).items@.len() ==> r is Some,
            index < old(self).items@.len() && r == Some(true) ==> marked_at(
                old(self).items@,
                final(self).items@,
                index as int,
                true,
            ) && successor_appended(
                old(self).items@,
                final(self).items@,
                index as int,
                final(self).items@[old(self).items@.len() as int]@.creation_date->0,
            ),
            index < old(self).items@.len() && r == Some(false) ==> marked_at(
                old(self).items@,
                final(self).items@,
                index as int,
                false,
            ),
            index < old(self).items@.len() && r == Some(false) ==> !{
                let m = old(self).items@[index as int]@;
                m.recurrence is Some && m.due is Some && m.recurrence->0.strict && spawns(
                    m,
                    m.due->0,
                )
            },
    {
        let t = today();
        self.complete_item_on(index, t)
    }

    pub fn item_count(&self) -> (r: usize)
        ensures
            r == self.items@.len(),
    {
        self.items.len()
    }
}

} // verus!
