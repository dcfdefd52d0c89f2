//! Names for patterns by the number of channels they join: `unary`,
//! `binary`, `ternary`, and `n4ary`, `n5ary` and so on beyond that; and the
//! names `A`, `AA`, `AAA` and so on for their type parameters.

use vstd::prelude::*;
use vstd::string::StringExecFns;

verus! {

/// The character for one decimal digit.
pub open spec fn digit_char(digit: nat) -> char {
    if digit == 0 {
        '0'
    } else if digit == 1 {
        '1'
    } else if digit == 2 {
        '2'
    } else if digit == 3 {
        '3'
    } else if digit == 4 {
        '4'
    } else if digit == 5 {
        '5'
    } else if digit == 6 {
        '6'
    } else if digit == 7 {
        '7'
    } else if digit == 8 {
        '8'
    } else {
        '9'
    }
}

/// The decimal numeral of a number, without leading zeros.
pub open spec fn decimal(number: nat) -> Seq<char>
    decreases number,
{
    if number < 10 {
        seq![digit_char(number)]
    } else {
        decimal(number / 10).push(digit_char(number % 10))
    }
}

/// The letter `A`, `count` times.
pub open spec fn repeated_a(count: nat) -> Seq<char> {
    Seq::new(count, |i: int| 'A')
}

/// The name for patterns of `number` channels.
pub open spec fn module_name(number: nat) -> Seq<char> {
    if number == 1 {
        "unary"@
    } else if number == 2 {
        "binary"@
    } else if number == 3 {
        "ternary"@
    } else {
        "n"@ + decimal(number) + "ary"@
    }
}

/// The numeral of one decimal digit.
fn digit_text(digit: usize) -> (text: &'static str)
    requires
        digit < 10,
    ensures
        text@ == seq![digit_char(digit as nat)],
{
    proof {
        reveal_strlit("0");
        reveal_strlit("1");
        reveal_strlit("2");
        reveal_strlit("3");
        reveal_strlit("4");
        reveal_strlit("5");
        reveal_strlit("6");
        reveal_strlit("7");
        reveal_strlit("8");
        reveal_strlit("9");
    }
    let text = if digit == 0 {
        "0"
    } else if digit == 1 {
        "1"
    } else if digit == 2 {
        "2"
    } else if digit == 3 {
        "3"
    } else if digit == 4 {
        "4"
    } else if digit == 5 {
        "5"
    } else if digit == 6 {
        "6"
    } else if digit == 7 {
        "7"
    } else if digit == 8 {
        "8"
    } else {
        "9"
    };
    assert(text@ =~= seq![digit_char(digit as nat)]);
    text
}

/// The decimal numeral of a number.
pub fn decimal_text(number: usize) -> (text: String)
    ensures
        text@ == decimal(number as nat),
    decreases number,
{
    if number < 10 {
        String::from_str(digit_text(number))
    } else {
        let mut text = decimal_text(number / 10);
        text.append(digit_text(number % 10));
        assert(text@ =~= decimal(number as nat));
        text
    }
}

/// The number of channels that a kind of pattern joins.
#[derive(Debug, Clone, Copy, PartialEq, Eq, Structural)]
pub struct Module {
    number: usize,
}

/// Hands out the names of the type parameters of a module, one by one.
#[derive(Debug, Clone, Copy, PartialEq, Eq, Structural)]
pub struct TypeParamIterator {
    module_number: usize,
    number: usize,
}

impl Module {
    /// The number of channels.
    pub closed spec fn count(&self) -> usize {
        self.number
    }

    /// The module for patterns of `number` channels.
    pub fn from_usize(number: usize) -> (module: Module)
        ensures
            module.count() == number,
    {
        Module { number }
    }

    /// The name of the module.
    pub fn name(&self) -> (name: String)
        requires
            self.count() != 0,
        ensures
            name@ == module_name(self.count() as nat),
    {
        if self.number == 1 {
            String::from_str("unary")
        } else if self.number == 2 {
            String::from_str("binary")
        } else if self.number == 3 {
            String::from_str("ternary")
        } else {
            let mut name = String::from_str("n");
            let numeral = decimal_text(self.number);
            name.append(numeral.as_str());
            name.append("ary");
            name
        }
    }

    /// The number of channels.
    pub fn number(&self) -> (number: usize)
        ensures
            number == self.count(),
    {
        self.number
    }

    /// The module for patterns of one channel more.
    pub fn next(&self) -> (next: Option<Module>)
        requires
            self.count() < usize::MAX,
        ensures
            next == Some(Module::from_count((self.count() + 1) as usize)),
    {
        let number: usize = self.number + 1;
        Some(Module { number })
    }

    /// The module for patterns of `number` channels.
    pub closed spec fn from_count(number: usize) -> Module {
        Module { number }
    }

    /// The names of the module's type parameters, to be had one by one.
    pub fn type_parameters(&self) -> (parameters: TypeParamIterator)
        ensures
            parameters.total() == self.count(),
            parameters.position() == 1,
    {
        TypeParamIterator { module_number: self.number, number: 1 }
    }
}

impl TypeParamIterator {
    /// How many names there are in all.
    pub closed spec fn total(&self) -> usize {
        self.module_number
    }

    /// Which name comes next, counted from 1.
    pub closed spec fn position(&self) -> usize {
        self.number
    }

    /// The next name: `A` as many times as the name's position says; `None`
    /// once all names have been handed out.
    pub fn next(&mut self) -> (name: Option<String>)
        requires
            old(self).total() < usize::MAX,
        ensures
            final(self).total() == old(self).total(),
            old(self).position() > old(self).total() ==> name is None && final(self).position()
                == old(self).position(),
            old(self).position() <= old(self).total() ==> {
                &&& name matches Some(text)
                &&& text@ == repeated_a(old(self).position() as nat)
                &&& final(self).position() == old(self).position() + 1
            },
    {
        if self.number > self.module_number {
            return None;
        }
        let mut text = String::new();
        let mut i: usize = 0;
        while i < self.number
            invariant
                i <= self.number,
                text@ == repeated_a(i as nat),
            decreases self.number - i,
        {
            proof {
                reveal_strlit("A");
            }
            text.append("A");
            i += 1;
            assert(text@ =~= repeated_a(i as nat));
        }
        self.number += 1;
        Some(text)
    }
}

} // verus!
