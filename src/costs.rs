use vstd::prelude::*;

verus! {

/// The cumulative cost of reaching a cell of the alignment matrix, tagged by
/// the kind of step that reached it.
#[derive(Debug, Clone, Copy, PartialEq, Eq, Structural)]
pub enum Cost {
    Insertion(usize),
    Deletion(usize),
    Substitution(usize),
    NoAction(usize),
}

impl Cost {
    /// The cost carried by any variant.
    pub open spec fn value(self) -> usize {
        match self {
            Cost::Insertion(c) => c,
            Cost::Deletion(c) => c,
            Cost::Substitution(c) => c,
            Cost::NoAction(c) => c,
        }
    }

    pub fn cost(self) -> (r: usize)
        ensures
            r == self.value(),
    {
        match self {
            Cost::Insertion(c) => c,
            Cost::Deletion(c) => c,
            Cost::Substitution(c) => c,
            Cost::NoAction(c) => c,
        }
    }
}

/// Decimal digits of `n`, most significant first, without leading zeros
/// (zero is the single digit `0`).
pub open spec fn decimal(n: nat) -> Seq<char>
    decreases n,
{
    if n < 10 {
        seq![digit_char(n)]
    } else {
        decimal(n / 10).push(digit_char(n % 10))
    }
}

pub open spec fn digit_char(d: nat) -> char {
    ((d + 48) as u8) as char
}

/// The two-character symbol that `show_cost` puts before the value.
pub open spec fn cost_prefix(c: Cost) -> Seq<char> {
    match c {
        Cost::Insertion(_) => seq!['+', ' '],
        Cost::Deletion(_) => seq!['-', ' '],
        Cost::Substitution(_) => seq!['~', ' '],
        Cost::NoAction(_) => seq!['o', ' '],
    }
}

fn digit_str(d: usize) -> (r: &'static str)
    requires
        d < 10,
    ensures
        r@ == seq![digit_char(d as nat)],
{
    proof {
        reveal_strlit("0");
        reveal_strlit("1");
        reveal_strlit("2");
        reveal_strlit("3");
        reveal_strlit("4");
        reveal_strlit("5");
        reveal_strlit("6");
        reveal_strlit("7");
        reveal_strlit("8");
        reveal_strlit("9");
    }
    match d {
        0 => "0",
        1 => "1",
        2 => "2",
        3 => "3",
        4 => "4",
        5 => "5",
        6 => "6",
        7 => "7",
        8 => "8",
        _ => "9",
    }
}

fn push_decimal(s: &mut String, n: usize)
    ensures
        final(s)@ == old(s)@ + decimal(n as nat),
    decreases n,
{
    if n >= 10 {
        push_decimal(s, n / 10);
    }
    s.append(digit_str(n % 10));
    proof {
        if n >= 10 {
            assert(decimal(n as nat) == decimal((n / 10) as nat).push(digit_char((n % 10) as nat)));
        }
    }
}

/// Renders a cost as its operation symbol, a space and the decimal value.
pub fn show_cost(c: &Cost) -> (r: String)
    ensures
        r@ == cost_prefix(*c) + decimal(c.value() as nat),
{
    let mut s = match c {
        Cost::Insertion(_) => String::from_str("+ "),
        Cost::Deletion(_) => String::from_str("- "),
        Cost::Substitution(_) => String::from_str("~ "),
        Cost::NoAction(_) => String::from_str("o "),
    };
    proof {
        reveal_strlit("+ ");
        reveal_strlit("- ");
        reveal_strlit("~ ");
        reveal_strlit("o ");
    }
    assert(s@ =~= cost_prefix(*c));
    push_decimal(&mut s, c.cost());
    s
}

/// Cost policy: the price of each single-element edit, and the rule that
/// picks, at one cell, which of three candidate costs is recorded.
pub trait Costs<T>: Copy + Sized {
    spec fn spec_insertion_cost(self, t: T) -> usize;

    spec fn spec_deletion_cost(self, t: T) -> usize;

    spec fn spec_substitution_cost(self, t1: T, t2: T) -> usize;

    /// The cost recorded for a cell where `t1` and `t2` are aligned, given
    /// the deletion, substitution and insertion candidates.
    spec fn spec_lower_cost(self, t1: T, t2: T, del: usize, sub: usize, ins: usize) -> Cost;

    /// The recorded cost is one of the three candidates, tagged by the step
    /// that produced it.
    proof fn lemma_lower_cost_picks_candidate(
        self,
        t1: T,
        t2: T,
        del: usize,
        sub: usize,
        ins: usize,
    )
        ensures
            ({
                let c = self.spec_lower_cost(t1, t2, del, sub, ins);
                c == Cost::Deletion(del) || c == Cost::Substitution(sub) || c == Cost::Insertion(
                    ins,
                )
            }),
    ;

    fn insertion_cost(self, t: &T) -> (r: usize)
        ensures
            r == self.spec_insertion_cost(*t),
    ;

    fn deletion_cost(self, t: &T) -> (r: usize)
        ensures
            r == self.spec_deletion_cost(*t),
    ;

    fn substitution_cost(self, t1: &T, t2: &T) -> (r: usize)
        ensures
            r == self.spec_substitution_cost(*t1, *t2),
    ;

    fn lower_cost(self, t1: &T, t2: &T, del: usize, sub: usize, ins: usize) -> (r: Cost)
        ensures
            r == self.spec_lower_cost(*t1, *t2, del, sub, ins),
    ;
}

/// The Levenshtein policy: insertions and deletions cost one, a substitution
/// costs one unless both characters are equal.
#[derive(PartialEq, Eq, Debug, Clone, Copy, Structural)]
pub struct LevenshteinCosts {}

/// Levenshtein tie-break: insertion when strictly cheaper than both others
/// (or tied with the substitution on equal characters), else deletion under
/// the same rule, else substitution.
pub open spec fn levenshtein_choice(t1: char, t2: char, del: usize, sub: usize, ins: usize) -> Cost {
    if ins < del {
        if ins < sub || (ins == sub && t1 == t2) {
            Cost::Insertion(ins)
        } else {
            Cost::Substitution(sub)
        }
    } else if del < sub || (del == sub && t1 == t2) {
        Cost::Deletion(del)
    } else {
        Cost::Substitution(sub)
    }
}

impl Costs<char> for LevenshteinCosts {
    open spec fn spec_insertion_cost(self, t: char) -> usize {
        1
    }

    open spec fn spec_deletion_cost(self, t: char) -> usize {
        1
    }

    open spec fn spec_substitution_cost(self, t1: char, t2: char) -> usize {
        if t1 == t2 {
            0
        } else {
            1
        }
    }

    open spec fn spec_lower_cost(
        self,
        t1: char,
        t2: char,
        del: usize,
        sub: usize,
        ins: usize,
    ) -> Cost {
        levenshtein_choice(t1, t2, del, sub, ins)
    }

    proof fn lemma_lower_cost_picks_candidate(
        self,
        t1: char,
        t2: char,
        del: usize,
        sub: usize,
        ins: usize,
    ) {
    }

    fn insertion_cost(self, _t: &char) -> (r: usize) {
        1
    }

    fn deletion_cost(self, _t: &char) -> (r: usize) {
        1
    }

    fn substitution_cost(self, t1: &char, t2: &char) -> (r: usize) {
        if *t1 == *t2 {
            0
        } else {
            1
        }
    }

    fn lower_cost(self, t1: &char, t2: &char, del: usize, sub: usize, ins: usize) -> (r: Cost) {
        if ins < del {
            if ins < sub || (ins == sub && *t1 == *t2) {
                Cost::Insertion(ins)
            } else {
                Cost::Substitution(sub)
            }
        } else if del < sub || (del == sub && *t1 == *t2) {
            Cost::Deletion(del)
        } else {
            Cost::Substitution(sub)
        }
    }
}

/// The recorded Levenshtein cost is the least of the three candidates.
pub proof fn lemma_levenshtein_choice_is_min(t1: char, t2: char, del: usize, sub: usize, ins: usize)
    ensures
        levenshtein_choice(t1, t2, del, sub, ins).value() <= del,
        levenshtein_choice(t1, t2, del, sub, ins).value() <= sub,
        levenshtein_choice(t1, t2, del, sub, ins).value() <= ins,
{
}

pub fn levenshtein_costs() -> (r: LevenshteinCosts)
    ensures
        r == (LevenshteinCosts {}),
{
    LevenshteinCosts {}
}

} // verus!
