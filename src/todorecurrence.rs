//! Recurrence rules: an optional strict marker `+`, an optional count, and a
//! unit letter (`d`, `b`, `w`, `m` or `y`).

use vstd::prelude::*;
use vstd::string::*;
use crate::text::{
    all_digits, decimal, digits_value, is_digit, is_digit_char, is_space, is_word, lemma_decimal,
    push_decimal,
};

verus! {

#[derive(Clone, Copy, Debug, PartialEq, Eq, Structural)]
pub enum TodoRecurrenceUnit {
    Daily,
    BusinessDay,
    Weekly,
    Monthly,
    Yearly,
}

#[derive(Clone, Copy, Debug, PartialEq, Eq, Structural)]
pub struct TodoRecurrence {
    pub strict: bool,
    pub count: u16,
    pub unit: TodoRecurrenceUnit,
}

#[derive(Clone, Copy, Debug, PartialEq, Eq, Structural)]
pub struct TodoRecurrenceParseError;

pub open spec fn unit_of(c: char) -> Option<TodoRecurrenceUnit> {
    if c == 'd' {
        Some(TodoRecurrenceUnit::Daily)
    } else if c == 'b' {
        Some(TodoRecurrenceUnit::BusinessDay)
    } else if c == 'w' {
        Some(TodoRecurrenceUnit::Weekly)
    } else if c == 'm' {
        Some(TodoRecurrenceUnit::Monthly)
    } else if c == 'y' {
        Some(TodoRecurrenceUnit::Yearly)
    } else {
        None
    }
}

pub open spec fn unit_letter(u: TodoRecurrenceUnit) -> char {
    match u {
        TodoRecurrenceUnit::Daily => 'd',
        TodoRecurrenceUnit::BusinessDay => 'b',
        TodoRecurrenceUnit::Weekly => 'w',
        TodoRecurrenceUnit::Monthly => 'm',
        TodoRecurrenceUnit::Yearly => 'y',
    }
}

/// Days per unit: business days count as days, a month as 30 days and a
/// year as 365 days.
pub open spec fn unit_days(u: TodoRecurrenceUnit) -> nat {
    match u {
        TodoRecurrenceUnit::Daily => 1,
        TodoRecurrenceUnit::BusinessDay => 1,
        TodoRecurrenceUnit::Weekly => 7,
        TodoRecurrenceUnit::Monthly => 30,
        TodoRecurrenceUnit::Yearly => 365,
    }
}

/// The rule that `s` denotes: `+` for strict, then digits for a count from 1
/// to 65535 (1 when there are none), then the unit letter.
pub open spec fn recurrence_of(s: Seq<char>) -> Option<TodoRecurrence> {
    let strict = s.len() > 0 && s[0] == '+';
    let body = if strict {
        s.drop_first()
    } else {
        s
    };
    if body.len() == 0 {
        None
    } else {
        match unit_of(body.last()) {
            None => None,
            Some(unit) => {
                let ds = body.drop_last();
                if ds.len() == 0 {
                    Some(TodoRecurrence { strict, count: 1, unit })
                } else if all_digits(ds) && 1 <= digits_value(ds) <= 65535 {
                    Some(TodoRecurrence { strict, count: digits_value(ds) as u16, unit })
                } else {
                    None
                }
            },
        }
    }
}

impl TodoRecurrence {
    pub open spec fn wf(self) -> bool {
        self.count >= 1
    }

    /// The written form: `+` when strict, the count when above 1, the unit letter.
    pub open spec fn text(self) -> Seq<char> {
        (if self.strict {
            seq!['+']
        } else {
            seq![]
        }) + (if self.count > 1 {
            decimal(self.count as nat)
        } else {
            seq![]
        }) + seq![unit_letter(self.unit)]
    }

    /// The number of days between occurrences.
    pub open spec fn span_days(self) -> nat {
        self.count as nat * unit_days(self.unit)
    }

    pub fn parse(s: &str) -> (r: Result<TodoRecurrence, TodoRecurrenceParseError>)
        ensures
            r matches Ok(t) ==> recurrence_of(s@) == Some(t) && t.wf(),
            r is Err <==> recurrence_of(s@) is None,
    {
        let n = s.unicode_len();
        if n == 0 {
            return Err(TodoRecurrenceParseError);
        }
        let strict = s.get_char(0) == '+';
        let start: usize = if strict {
            1
        } else {
            0
        };
        let ghost body = if strict {
            s@.drop_first()
        } else {
            s@
        };
        assert(body =~= s@.subrange(start as int, n as int));
        if n <= start {
            return Err(TodoRecurrenceParseError);
        }
        let last = s.get_char(n - 1);
        let unit = if last == 'd' {
            TodoRecurrenceUnit::Daily
        } else if last == 'b' {
            TodoRecurrenceUnit::BusinessDay
        } else if last == 'w' {
            TodoRecurrenceUnit::Weekly
        } else if last == 'm' {
            TodoRecurrenceUnit::Monthly
        } else if last == 'y' {
            TodoRecurrenceUnit::Yearly
        } else {
            return Err(TodoRecurrenceParseError);
        };
        assert(body.last() == last);
        assert(unit_of(body.last()) == Some(unit));
        let ghost ds = body.drop_last();
        assert(ds =~= s@.subrange(start as int, n - 1));
        if n - 1 == start {
            return Ok(TodoRecurrence { strict, count: 1, unit });
        }
        let mut acc: u32 = 0;
        let mut k: usize = start;
        while k < n - 1
            invariant
                n == s@.len(),
                start <= k <= n - 1,
                ds == s@.subrange(start as int, n - 1),
                ds == body.drop_last(),
                ds.len() > 0,
                body.len() > 0,
                unit_of(body.last()) == Some(unit),
                body == (if strict {
                    s@.drop_first()
                } else {
                    s@
                }),
                strict == (s@.len() > 0 && s@[0] == '+'),
                acc == digits_value(s@.subrange(start as int, k as int)),
                acc <= 65535,
                all_digits(s@.subrange(start as int, k as int)),
            decreases n - 1 - k,
        {
            let c = s.get_char(k);
            let ghost pre = s@.subrange(start as int, k as int);
            let ghost next = s@.subrange(start as int, k + 1);
            assert(next.drop_last() =~= pre);
            assert(next.last() == c);
            if !is_digit_char(c) {
                assert(ds[k - start] == c);
                assert(!all_digits(ds));
                return Err(TodoRecurrenceParseError);
            }
            acc = acc * 10 + (c as u32 - 0x30);
            assert(all_digits(next)) by {
                assert forall|i: int| 0 <= i < next.len() implies is_digit(#[trigger] next[i]) by {
                    if i < pre.len() {
                        assert(next[i] == pre[i]);
                    }
                }
            }
            if acc > 65535 {
                proof {
                    if all_digits(ds) {
                        lemma_prefix_value(ds, next.len() as int);
                        assert(ds.subrange(0, next.len() as int) =~= next);
                    }
                }
                return Err(TodoRecurrenceParseError);
            }
            k = k + 1;
        }
        if acc == 0 {
            return Err(TodoRecurrenceParseError);
        }
        Ok(TodoRecurrence { strict, count: acc as u16, unit })
    }

    /// The number of days between occurrences.
    pub fn span(&self) -> (r: u64)
        ensures
            r == self.span_days(),
    {
        let per: u64 = match self.unit {
            TodoRecurrenceUnit::Daily => 1,
            TodoRecurrenceUnit::BusinessDay => 1,
            TodoRecurrenceUnit::Weekly => 7,
            TodoRecurrenceUnit::Monthly => 30,
            TodoRecurrenceUnit::Yearly => 365,
        };
        self.count as u64 * per
    }

    pub fn to_string(&self) -> (r: String)
        ensures
            r@ == self.text(),
    {
        let mut out = String::new();
        proof {
            reveal_strlit("+");
            reveal_strlit("d");
            reveal_strlit("b");
            reveal_strlit("w");
            reveal_strlit("m");
            reveal_strlit("y");
        }
        if self.strict {
            out.append("+");
        }
        let ghost head = out@;
        if self.count > 1 {
            push_decimal(&mut out, self.count as u32);
        }
        let ghost mid = out@;
        match self.unit {
            TodoRecurrenceUnit::Daily => out.append("d"),
            TodoRecurrenceUnit::BusinessDay => out.append("b"),
            TodoRecurrenceUnit::Weekly => out.append("w"),
            TodoRecurrenceUnit::Monthly => out.append("m"),
            TodoRecurrenceUnit::Yearly => out.append("y"),
        }
        assert(out@ =~= self.text());
        out
    }
}

/// The value of a digit string is at least that of each of its prefixes.
proof fn lemma_prefix_value(s: Seq<char>, k: int)
    requires
        0 <= k <= s.len(),
        all_digits(s),
    ensures
        digits_value(s.subrange(0, k)) <= digits_value(s),
    decreases s.len() - k,
{
    if k < s.len() {
        let longer = s.subrange(0, k + 1);
        assert(longer.drop_last() =~= s.subrange(0, k));
        lemma_prefix_value(s, k + 1);
    } else {
        assert(s.subrange(0, k) =~= s);
    }
}

/// A well-formed rule is one word and reads back as itself.
pub proof fn lemma_recurrence_text(r: TodoRecurrence)
    requires
        r.wf(),
    ensures
        recurrence_of(r.text()) == Some(r),
        is_word(r.text()),
{
    let t = r.text();
    let sign: Seq<char> = if r.strict {
        seq!['+']
    } else {
        seq![]
    };
    let digits: Seq<char> = if r.count > 1 {
        decimal(r.count as nat)
    } else {
        seq![]
    };
    lemma_decimal(r.count as nat);
    assert(t == sign + digits + seq![unit_letter(r.unit)]);
    let body = digits + seq![unit_letter(r.unit)];
    if r.strict {
        assert(t.drop_first() =~= body);
    } else {
        assert(t =~= body);
        if r.count > 1 {
            assert(t[0] == digits[0]);
            assert(is_digit(digits[0]));
        }
    }
    assert(body.drop_last() =~= digits);
    assert(body.last() == unit_letter(r.unit));
    assert forall|i: int| 0 <= i < t.len() implies !is_space(#[trigger] t[i]) by {
        if i < sign.len() {
        } else if i < sign.len() + digits.len() {
            assert(t[i] == digits[i - sign.len()]);
            assert(is_digit(digits[i - sign.len()]));
        } else {
            assert(t[i] == unit_letter(r.unit));
        }
    }
}

impl std::str::FromStr for TodoRecurrence {
    type Err = TodoRecurrenceParseError;

    fn from_str(s: &str) -> Result<TodoRecurrence, TodoRecurrenceParseError> {
        TodoRecurrence::parse(s)
    }
}

} // verus!
