//! The choices of the collision prompt of `apply`: what to do with a path
//! that is in the way of a file to deploy.

use vstd::prelude::*;

verus! {

/// A choice at the collision prompt, in the order the prompt offers them.
#[derive(Debug, Clone, Copy, PartialEq, Eq, Structural)]
pub enum CollisionOptions {
    Skip,
    Overwrite,
    Diff,
    Quit,
}

impl Default for CollisionOptions {
    /// The preselected choice: skip.
    fn default() -> (res: CollisionOptions)
        ensures
            res == CollisionOptions::Skip,
    {
        CollisionOptions::Skip
    }
}

/// The word the prompt shows for a choice.
pub open spec fn option_label(o: CollisionOptions) -> Seq<char> {
    match o {
        CollisionOptions::Skip => "skip"@,
        CollisionOptions::Overwrite => "overwrite"@,
        CollisionOptions::Diff => "diff"@,
        CollisionOptions::Quit => "quit"@,
    }
}

impl CollisionOptions {
    /// Every choice, in the order the prompt offers them.
    pub fn all() -> (res: Vec<CollisionOptions>)
        ensures
            res@ == seq![CollisionOptions::Skip, CollisionOptions::Overwrite, CollisionOptions::Diff, CollisionOptions::Quit],
    {
        vec![CollisionOptions::Skip, CollisionOptions::Overwrite, CollisionOptions::Diff, CollisionOptions::Quit]
    }

    /// The word the prompt shows for this choice.
    pub fn label(&self) -> (res: &'static str)
        ensures
            res@ == option_label(*self),
    {
        match self {
            CollisionOptions::Skip => "skip",
            CollisionOptions::Overwrite => "overwrite",
            CollisionOptions::Diff => "diff",
            CollisionOptions::Quit => "quit",
        }
    }

    /// The key that picks this choice: its label's first letter.
    pub fn hot_key(&self) -> (res: char)
        ensures
            res == option_label(*self)[0],
    {
        proof {
            reveal_strlit("skip");
            reveal_strlit("overwrite");
            reveal_strlit("diff");
            reveal_strlit("quit");
        }
        match self {
            CollisionOptions::Skip => 's',
            CollisionOptions::Overwrite => 'o',
            CollisionOptions::Diff => 'd',
            CollisionOptions::Quit => 'q',
        }
    }
}

/// No two choices share a hot key, so a key picks one choice.
pub proof fn lemma_hot_keys_distinct(a: CollisionOptions, b: CollisionOptions)
    requires
        a != b,
    ensures
        option_label(a)[0] != option_label(b)[0],
{
    reveal_strlit("skip");
    reveal_strlit("overwrite");
    reveal_strlit("diff");
    reveal_strlit("quit");
}

} // verus!
