//! Rules: an input pattern that is looked for, and an output pattern that is
//! then laid over what was found.

use crate::diagram::{diagram, DiagramError};
use crate::pattern::{HalfRule, Layers};
use crate::text::{split, split_at_marks};
use vstd::prelude::*;
use vstd::string::StringSliceAdditionalSpecFns;

verus! {

/// A rule as a mathematical value: its name and its two patterns.
pub struct RuleView {
    pub name: Seq<char>,
    pub input: Layers,
    pub output: Layers,
}

impl RuleView {
    /// Both patterns have layers of the right sizes, and the two patterns
    /// have the same size.
    pub open spec fn wf(self) -> bool {
        &&& self.input.wf()
        &&& self.output.wf()
        &&& self.input.height == self.output.height
        &&& self.input.width == self.output.width
    }

    /// The two rules have the same patterns; their names may differ.
    pub open spec fn same_patterns(self, other: RuleView) -> bool {
        self.input == other.input && self.output == other.output
    }

    /// The rule applies to the grid `g` at (`row`, `col`): its input pattern,
    /// with its first cell on that cell, lies inside the grid, and the grid
    /// satisfies it there.
    pub open spec fn applies(self, g: Layers, row: int, col: int) -> bool {
        g.holds(self.input, row, col) && g.satisfies(self.input, row, col)
    }

    /// What the grid `g` becomes when the rule is applied at (`row`, `col`):
    /// every state under the output pattern is replaced by its meet with it.
    pub open spec fn applied(self, g: Layers, row: int, col: int) -> Layers {
        g.narrowed(self.output, row, col)
    }

    /// The rule contradicts the grid `g` at (`row`, `col`): it applies
    /// there, and at some position its output pattern has no meet with the
    /// grid.
    pub open spec fn contradicts(self, g: Layers, row: int, col: int) -> bool {
        self.applies(g, row, col) && !g.consistent(self.output, row, col)
    }

    /// What the attempt to apply the rule to the grid `g` at (`row`, `col`)
    /// gives: the grid after it, and whether the grid changed. Where the rule
    /// does not apply, the grid stays as it is and there is no answer.
    pub open spec fn outcome(self, g: Layers, row: int, col: int) -> (Layers, Option<bool>) {
        if self.applies(g, row, col) {
            (self.applied(g, row, col), Some(self.applied(g, row, col) != g))
        } else {
            (g, None)
        }
    }

    /// The rule has nothing more to say on the grid `g` at (`row`, `col`):
    /// it applies there without a contradiction, and leaves the grid as it
    /// is.
    pub open spec fn spent(self, g: Layers, row: int, col: int) -> bool {
        &&& self.applies(g, row, col)
        &&& g.consistent(self.output, row, col)
        &&& self.applied(g, row, col) == g
    }

    /// The rule after a quarter turn of both patterns.
    pub open spec fn rotated_90(self) -> RuleView {
        RuleView {
            name: self.name,
            input: self.input.rotated_90(),
            output: self.output.rotated_90(),
        }
    }

    /// The rule with both patterns mirrored left to right.
    pub open spec fn reversed_lr(self) -> RuleView {
        RuleView {
            name: self.name,
            input: self.input.reversed_lr(),
            output: self.output.reversed_lr(),
        }
    }

    /// The rule with both patterns mirrored top to bottom.
    pub open spec fn reversed_ud(self) -> RuleView {
        RuleView {
            name: self.name,
            input: self.input.reversed_ud(),
            output: self.output.reversed_ud(),
        }
    }

    /// The rule after a half turn of both patterns.
    pub open spec fn rotated_180(self) -> RuleView {
        RuleView {
            name: self.name,
            input: self.input.rotated_180(),
            output: self.output.rotated_180(),
        }
    }
}

/// Why a text is not the text of a rule.
#[derive(Clone, Copy, Debug, PartialEq, Eq, Structural)]
pub enum RuleError {
    /// The text does not hold `=>` exactly once.
    Arrows,
    /// What stands before `=>` draws no pattern.
    Input(DiagramError),
    /// What stands after `=>` draws no pattern.
    Output(DiagramError),
    /// The two patterns differ in height or in width.
    Size,
}

/// The rule that a text describes: the drawing of the input pattern, then
/// `=>`, then the drawing of the output pattern.
pub open spec fn rule_text(name: Seq<char>, s: Seq<u8>) -> Result<RuleView, RuleError> {
    let parts = split(s, "=>".spec_bytes());
    if parts.len() != 2 {
        Err(RuleError::Arrows)
    } else {
        match diagram(parts[0]) {
            Err(e) => Err(RuleError::Input(e)),
            Ok(input) => match diagram(parts[1]) {
                Err(e) => Err(RuleError::Output(e)),
                Ok(output) => if input.height != output.height || input.width != output.width {
                    Err(RuleError::Size)
                } else {
                    Ok(RuleView { name, input, output })
                },
            },
        }
    }
}

/// A named rule: where the grid satisfies the input pattern, the output
/// pattern holds too.
#[derive(Debug)]
pub struct Rule {
    name: String,
    rule_in: HalfRule,
    rule_out: HalfRule,
}

impl View for Rule {
    type V = RuleView;

    closed spec fn view(&self) -> RuleView {
        RuleView { name: self.name@, input: self.rule_in@, output: self.rule_out@ }
    }
}

impl Rule {
    /// What every rule keeps: its two patterns are well formed and have the
    /// same size.
    #[verifier::type_invariant]
    pub open spec fn valid(self) -> bool {
        self@.wf()
    }

    /// Reads the rule that `text` describes, or finds why it describes none.
    pub fn parse(name: &str, text: &[u8]) -> (r: Result<Rule, RuleError>)
        ensures
            match r {
                Ok(rule) => rule_text(name@, text@) == Ok::<RuleView, RuleError>(rule@),
                Err(e) => rule_text(name@, text@) == Err::<RuleView, RuleError>(e),
            },
    {
        let parts = split_at_marks(text, "=>".as_bytes());
        if parts.len() != 2 {
            return Err(RuleError::Arrows);
        }
        let rule_in = match HalfRule::parse(parts[0].as_slice()) {
            Ok(pattern) => pattern,
            Err(e) => {
                return Err(RuleError::Input(e));
            },
        };
        let rule_out = match HalfRule::parse(parts[1].as_slice()) {
            Ok(pattern) => pattern,
            Err(e) => {
                return Err(RuleError::Output(e));
            },
        };
        if rule_in.height() != rule_out.height() || rule_in.width() != rule_out.width() {
            return Err(RuleError::Size);
        }
        Ok(Rule { name: name.to_owned(), rule_in, rule_out })
    }

    /// The rule with the given name that `rule_str` describes.
    pub fn new(name: &str, rule_str: &str) -> (rule: Rule)
        requires
            rule_text(name@, rule_str.spec_bytes()) is Ok,
        ensures
            rule_text(name@, rule_str.spec_bytes()) == Ok::<RuleView, RuleError>(rule@),
    {
        match Rule::parse(name, rule_str.as_bytes()) {
            Ok(rule) => rule,
            Err(_) => vstd::pervasive::unreached(),
        }
    }

    /// The rule's name.
    pub fn name(&self) -> (n: &str)
        ensures
            n@ == self@.name,
    {
        self.name.as_str()
    }

    /// The pattern that the rule looks for.
    pub fn rule_in(&self) -> (p: &HalfRule)
        ensures
            p@ == self@.input,
            self@.wf(),
    {
        proof {
            use_type_invariant(self);
        }
        &self.rule_in
    }

    /// The pattern that the rule lays over what it found.
    pub fn rule_out(&self) -> (p: &HalfRule)
        ensures
            p@ == self@.output,
            self@.wf(),
    {
        proof {
            use_type_invariant(self);
        }
        &self.rule_out
    }

    /// The rule after a quarter turn of both patterns.
    pub fn rotated_90(&self) -> (r: Rule)
        ensures
            r@ == self@.rotated_90(),
    {
        proof {
            use_type_invariant(self);
        }
        Rule {
            name: self.name.clone(),
            rule_in: self.rule_in.rotated_90(),
            rule_out: self.rule_out.rotated_90(),
        }
    }

    /// The rule with both patterns mirrored left to right.
    pub fn reversed_lr(&self) -> (r: Rule)
        ensures
            r@ == self@.reversed_lr(),
    {
        proof {
            use_type_invariant(self);
        }
        Rule {
            name: self.name.clone(),
            rule_in: self.rule_in.reversed_lr(),
            rule_out: self.rule_out.reversed_lr(),
        }
    }

    /// The rule with both patterns mirrored top to bottom.
    pub fn reversed_ud(&self) -> (r: Rule)
        ensures
            r@ == self@.reversed_ud(),
    {
        proof {
            use_type_invariant(self);
        }
        Rule {
            name: self.name.clone(),
            rule_in: self.rule_in.reversed_ud(),
            rule_out: self.rule_out.reversed_ud(),
        }
    }

    /// The rule after a half turn of both patterns.
    pub fn rotated_180(&self) -> (r: Rule)
        ensures
            r@ == self@.rotated_180(),
    {
        proof {
            use_type_invariant(self);
        }
        Rule {
            name: self.name.clone(),
            rule_in: self.rule_in.rotated_180(),
            rule_out: self.rule_out.rotated_180(),
        }
    }

    /// Whether two rules have the same patterns.
    pub fn same(&self, other: &Rule) -> (e: bool)
        ensures
            e == self@.same_patterns(other@),
    {
        self.rule_in.same(&other.rule_in) && self.rule_out.same(&other.rule_out)
    }
}

impl Clone for Rule {
    fn clone(&self) -> (copy: Rule)
        ensures
            copy@ == self@,
    {
        proof {
            use_type_invariant(self);
        }
        Rule {
            name: self.name.clone(),
            rule_in: self.rule_in.clone(),
            rule_out: self.rule_out.clone(),
        }
    }
}

impl PartialEq for Rule {
    fn eq(&self, other: &Rule) -> (e: bool) {
        self.same(other)
    }
}

impl vstd::std_specs::cmp::PartialEqSpecImpl for Rule {
    open spec fn obeys_eq_spec() -> bool {
        true
    }

    open spec fn eq_spec(&self, other: &Rule) -> bool {
        self@.same_patterns(other@)
    }
}

impl Eq for Rule {

}

} // verus!
