//! The menu dispatch table: a list of keyed choices, each naming the
//! tool it starts. The menu resolves a key to a choice; the caller
//! performs the choice's tool.

use vstd::prelude::*;

use crate::error::ToolError;
use crate::utils::str_eq;

verus! {

/// The tools a menu choice can start, as a tagged value.
#[derive(Clone, Copy, Debug, PartialEq, Eq, Structural)]
pub enum ToolKind {
    Pixelate,
    ApplyOpacityMask,
    NaiveCrop,
    Exit,
}

/// One menu entry: a selection key, a label, and the tool it starts.
pub struct Choice {
    pub id: String,
    pub label: String,
    pub method: ToolKind,
}

/// The rendered menu line of one choice: its key, a separator, its
/// label, and a line break.
pub open spec fn spec_choice_line(c: Choice) -> Seq<char> {
    c.id@ + seq![':', ' '] + c.label@ + seq!['\n']
}

/// The rendered menu text: every choice's line, in order.
pub open spec fn spec_menu_text(cs: Seq<Choice>) -> Seq<char>
    decreases cs.len(),
{
    if cs.len() == 0 {
        Seq::empty()
    } else {
        spec_menu_text(cs.drop_last()) + spec_choice_line(cs.last())
    }
}

/// The index of the first choice whose key equals `key`, or -1 when no
/// choice matches.
pub open spec fn spec_first_match(cs: Seq<Choice>, key: Seq<char>) -> int
    decreases cs.len(),
{
    if cs.len() == 0 {
        -1
    } else if cs.first().id@ == key {
        0
    } else if spec_first_match(cs.drop_first(), key) == -1 {
        -1
    } else {
        1 + spec_first_match(cs.drop_first(), key)
    }
}

/// When the choices before `i` all miss and choice `i` matches, `i` is
/// the first match.
pub proof fn lemma_first_match_found(cs: Seq<Choice>, key: Seq<char>, i: int)
    requires
        0 <= i < cs.len(),
        cs[i].id@ == key,
        forall|j: int| 0 <= j < i ==> cs[j].id@ != key,
    ensures
        spec_first_match(cs, key) == i,
    decreases i,
{
    if i > 0 {
        lemma_first_match_found(cs.drop_first(), key, i - 1);
    }
}

/// When every choice misses, there is no first match.
pub proof fn lemma_first_match_none(cs: Seq<Choice>, key: Seq<char>)
    requires
        forall|j: int| 0 <= j < cs.len() ==> cs[j].id@ != key,
    ensures
        spec_first_match(cs, key) == -1,
    decreases cs.len(),
{
    if cs.len() > 0 {
        lemma_first_match_none(cs.drop_first(), key);
    }
}

impl Choice {
    pub fn new(id: &str, label: &str, method: ToolKind) -> (c: Choice)
        ensures
            c.id@ == id@,
            c.label@ == label@,
            c.method == method,
    {
        Choice { id: String::from_str(id), label: String::from_str(label), method }
    }

    /// The menu line for this choice.
    fn print(&self) -> (r: String)
        ensures
            r@ == spec_choice_line(*self),
    {
        proof {
            reveal_strlit(": ");
            reveal_strlit("\n");
            assert(": "@ =~= seq![':', ' ']);
            assert("\n"@ =~= seq!['\n']);
        }
        let mut line = String::new();
        line.append(self.id.as_str());
        line.append(": ");
        line.append(self.label.as_str());
        line.append("\n");
        proof {
            assert(line@ =~= spec_choice_line(*self));
        }
        line
    }

    /// Hands back the tool this choice starts.
    pub fn execute(&self) -> (t: ToolKind)
        ensures
            t == self.method,
    {
        self.method
    }
}

/// The menu: an ordered list of choices.
pub struct Menu {
    pub choices: Vec<Choice>,
}

impl Menu {
    pub fn new() -> (m: Menu)
        ensures
            m.choices@ == Seq::<Choice>::empty(),
    {
        Menu { choices: Vec::new() }
    }

    pub fn add_choice(&mut self, choice: Choice)
        ensures
            final(self).choices@ == old(self).choices@.push(choice),
    {
        self.choices.push(choice);
    }

    /// Renders the whole menu, one `key: label` line per choice, in
    /// order. The caller prints the text; the library only builds it.
    #[verifier::loop_isolation(false)]
    pub fn print_choices(&self) -> (r: String)
        ensures
            r@ == spec_menu_text(self.choices@),
    {
        let mut out = String::new();
        let n = self.choices.len();
        let mut i: usize = 0;
        while i < n
            invariant
                i <= n,
                out@ == spec_menu_text(self.choices@.take(i as int)),
            decreases n - i,
        {
            proof {
                assert(self.choices@.take(i + 1).drop_last() =~= self.choices@.take(i as int));
                assert(self.choices@.take(i + 1).last() == self.choices@[i as int]);
            }
            let line = self.choices[i].print();
            out.append(line.as_str());
            i = i + 1;
        }
        proof {
            assert(self.choices@.take(n as int) =~= self.choices@);
        }
        out
    }

    /// Resolves a key to the first choice it selects; a key that matches
    /// no choice is an invalid selection.
    #[verifier::loop_isolation(false)]
    pub fn get_choice_input(&self, input: &str) -> (r: Result<&Choice, ToolError>)
        ensures
            spec_first_match(self.choices@, input@) >= 0 ==> r is Ok && *r->Ok_0
                == self.choices@[spec_first_match(self.choices@, input@)],
            spec_first_match(self.choices@, input@) == -1 ==> r == Err::<&Choice, ToolError>(
                ToolError::InvalidSelection,
            ),
    {
        let n = self.choices.len();
        let mut i: usize = 0;
        while i < n
            invariant
                i <= n,
                forall|j: int| 0 <= j < i ==> self.choices@[j].id@ != input@,
            decreases n - i,
        {
            let choice = &self.choices[i];
            if str_eq(choice.id.as_str(), input) {
                proof {
                    lemma_first_match_found(self.choices@, input@, i as int);
                }
                return Ok(choice);
            }
            i = i + 1;
        }
        proof {
            lemma_first_match_none(self.choices@, input@);
        }
        Err(ToolError::InvalidSelection)
    }

    /// Resolves a key to the tool its choice starts.
    pub fn execute_choice_input(&self, input: &str) -> (r: Result<ToolKind, ToolError>)
        ensures
            spec_first_match(self.choices@, input@) >= 0 ==> r == Ok::<ToolKind, ToolError>(
                self.choices@[spec_first_match(self.choices@, input@)].method,
            ),
            spec_first_match(self.choices@, input@) == -1 ==> r == Err::<ToolKind, ToolError>(
                ToolError::InvalidSelection,
            ),
    {
        match self.get_choice_input(input) {
            Ok(choice) => Ok(choice.execute()),
            Err(e) => Err(e),
        }
    }
}

} // verus!
