//! Values that templates refer to, their display form, and the bindings of names to values.
use vstd::prelude::*;
use crate::text::{chars_of, match_at, string_of};

verus! {

/// A value bound to a name.
#[derive(Debug, Clone, PartialEq, Eq)]
pub enum Value {
    Integer(i64),
    Boolean(bool),
    Text(String),
}

/// The decimal digit `d` as a character.
pub open spec fn digit_char(d: nat) -> char {
    if d == 0 {
        '0'
    } else if d == 1 {
        '1'
    } else if d == 2 {
        '2'
    } else if d == 3 {
        '3'
    } else if d == 4 {
        '4'
    } else if d == 5 {
        '5'
    } else if d == 6 {
        '6'
    } else if d == 7 {
        '7'
    } else if d == 8 {
        '8'
    } else {
        '9'
    }
}

/// Base-10 digits of `n`, most significant first, without leading zeros.
pub open spec fn nat_digits(n: nat) -> Seq<char>
    decreases n,
{
    if n < 10 {
        seq![digit_char(n)]
    } else {
        nat_digits(n / 10).push(digit_char(n % 10))
    }
}

/// Base-10 form of an integer, with a leading `-` when it is negative.
pub open spec fn int_display(n: int) -> Seq<char> {
    if n < 0 {
        seq!['-'] + nat_digits((-n) as nat)
    } else {
        nat_digits(n as nat)
    }
}

/// The words `true` and `false`.
pub open spec fn bool_display(b: bool) -> Seq<char> {
    if b {
        seq!['t', 'r', 'u', 'e']
    } else {
        seq!['f', 'a', 'l', 's', 'e']
    }
}

/// How a value appears in rendered text.
pub open spec fn display(v: Value) -> Seq<char> {
    match v {
        Value::Integer(n) => int_display(n as int),
        Value::Boolean(b) => bool_display(b),
        Value::Text(t) => t@,
    }
}

fn digit(d: u64) -> (c: char)
    requires
        d < 10,
    ensures
        c == digit_char(d as nat),
{
    if d == 0 {
        '0'
    } else if d == 1 {
        '1'
    } else if d == 2 {
        '2'
    } else if d == 3 {
        '3'
    } else if d == 4 {
        '4'
    } else if d == 5 {
        '5'
    } else if d == 6 {
        '6'
    } else if d == 7 {
        '7'
    } else if d == 8 {
        '8'
    } else {
        '9'
    }
}

fn push_digits(m: u64, out: &mut Vec<char>)
    ensures
        final(out)@ == old(out)@ + nat_digits(m as nat),
    decreases m,
{
    if m >= 10 {
        push_digits(m / 10, out);
    }
    out.push(digit(m % 10));
    assert(final(out)@ =~= old(out)@ + nat_digits(m as nat));
}

impl Value {
    /// Appends the display form of the value to `out`.
    pub fn display_into(&self, out: &mut Vec<char>)
        ensures
            final(out)@ == old(out)@ + display(*self),
    {
        match self {
            Value::Integer(n) => {
                if *n < 0 {
                    out.push('-');
                    let m: u64 = (-(*n + 1)) as u64 + 1;
                    push_digits(m, out);
                } else {
                    push_digits(*n as u64, out);
                }
            },
            Value::Boolean(b) => {
                if *b {
                    out.push('t');
                    out.push('r');
                    out.push('u');
                    out.push('e');
                } else {
                    out.push('f');
                    out.push('a');
                    out.push('l');
                    out.push('s');
                    out.push('e');
                }
            },
            Value::Text(t) => {
                let cs = chars_of(t.as_str());
                let mut k: usize = 0;
                while k < cs.len()
                    invariant
                        k <= cs.len(),
                        out@ == old(out)@ + cs@.take(k as int),
                    decreases cs.len() - k,
                {
                    out.push(cs[k]);
                    k = k + 1;
                    assert(out@ =~= old(out)@ + cs@.take(k as int));
                }
                assert(cs@.take(cs.len() as int) =~= cs@);
            },
        }
        assert(final(out)@ =~= old(out)@ + display(*self));
    }

    /// The display form of the value: decimal digits, `true`/`false`, or the text itself.
    pub fn to_text(&self) -> (r: String)
        ensures
            r@ == display(*self),
    {
        let mut cs: Vec<char> = Vec::new();
        self.display_into(&mut cs);
        string_of(&cs)
    }
}

/// Last binding of `k` among the first `n` entries, if any.
pub open spec fn lookup_in(entries: Seq<(Vec<char>, Value)>, n: int, k: Seq<char>) -> Option<Value>
    decreases n,
{
    if n <= 0 {
        None
    } else if entries[n - 1].0@ == k {
        Some(entries[n - 1].1)
    } else {
        lookup_in(entries, n - 1, k)
    }
}

/// A mapping from names to values; binding a name again replaces its value.
pub struct Bindings {
    entries: Vec<(Vec<char>, Value)>,
}

impl View for Bindings {
    type V = Map<Seq<char>, Value>;

    closed spec fn view(&self) -> Map<Seq<char>, Value> {
        Map::new(
            |k: Seq<char>| lookup_in(self.entries@, self.entries@.len() as int, k) is Some,
            |k: Seq<char>| lookup_in(self.entries@, self.entries@.len() as int, k)->0,
        )
    }
}

impl Bindings {
    /// No names bound.
    pub fn new() -> (r: Bindings)
        ensures
            r@ == Map::<Seq<char>, Value>::empty(),
    {
        let r = Bindings { entries: Vec::new() };
        assert(r@ =~= Map::<Seq<char>, Value>::empty());
        r
    }

    /// Binds `name` to `value`, replacing an earlier binding of `name`.
    pub fn insert(&mut self, name: &str, value: Value)
        ensures
            final(self)@ == old(self)@.insert(name@, value),
    {
        let k = chars_of(name);
        self.entries.push((k, value));
        let ghost e = self.entries@;
        assert forall|x: Seq<char>| #[trigger]
            lookup_in(e, e.len() as int, x) == if x == name@ {
                Some(value)
            } else {
                lookup_in(old(self).entries@, old(self).entries@.len() as int, x)
            } by {
            lookup_prefix(e, old(self).entries@, old(self).entries@.len() as int, x);
        }
        assert(self@ =~= old(self)@.insert(name@, value));
    }

    /// The value bound to the name `k`, given by its characters.
    pub fn lookup(&self, k: &Vec<char>) -> (r: Option<&Value>)
        ensures
            match r {
                Some(v) => self@.contains_key(k@) && *v == self@[k@],
                None => !self@.contains_key(k@),
            },
    {
        let mut i: usize = self.entries.len();
        while i > 0
            invariant
                i <= self.entries.len(),
                lookup_in(self.entries@, self.entries@.len() as int, k@) == lookup_in(
                    self.entries@,
                    i as int,
                    k@,
                ),
            decreases i,
        {
            let key = &self.entries[i - 1].0;
            if key.len() == k.len() && match_at(key, 0, k) {
                assert(key@ =~= k@);
                return Some(&self.entries[i - 1].1);
            }
            proof {
                if key@ == k@ {
                    assert(key@.subrange(0, k@.len() as int) =~= k@);
                }
            }
            i = i - 1;
        }
        None
    }

    /// The value bound to `name`.
    pub fn get(&self, name: &str) -> (r: Option<&Value>)
        ensures
            match r {
                Some(v) => self@.contains_key(name@) && *v == self@[name@],
                None => !self@.contains_key(name@),
            },
    {
        let k = chars_of(name);
        self.lookup(&k)
    }
}

/// Lookup in a sequence extended by one entry at its end.
proof fn lookup_prefix(e: Seq<(Vec<char>, Value)>, p: Seq<(Vec<char>, Value)>, n: int, x: Seq<char>)
    requires
        0 <= n,
        n + 1 == e.len(),
        p.len() == n,
        forall|i: int| 0 <= i < n ==> e[i] == p[i],
    ensures
        lookup_in(e, n + 1, x) == if x == e[n].0@ {
            Some(e[n].1)
        } else {
            lookup_in(p, n, x)
        },
{
    lookup_same(e, p, n, x);
}

proof fn lookup_same(e: Seq<(Vec<char>, Value)>, p: Seq<(Vec<char>, Value)>, n: int, x: Seq<char>)
    requires
        0 <= n <= e.len(),
        n <= p.len(),
        forall|i: int| 0 <= i < n ==> e[i] == p[i],
    ensures
        lookup_in(e, n, x) == lookup_in(p, n, x),
    decreases n,
{
    if n > 0 {
        lookup_same(e, p, n - 1, x);
    }
}

} // verus!
