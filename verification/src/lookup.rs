//! Finding the recipe of a dish by its name.

use crate::text::{same_text, to_chars};
use vstd::prelude::*;

verus! {

/// A known dish: its name and where its recipe lies.
#[derive(Debug, Clone, PartialEq, Eq)]
pub struct DishPath {
    pub name: String,
    pub path: String,
}

/// The dishes that can be cooked.
#[derive(Debug, Clone, PartialEq, Eq)]
pub struct DishIndex {
    pub dishes: Vec<DishPath>,
}

/// Why a dish could not be found.
#[derive(Debug, Clone, PartialEq, Eq)]
pub enum LookupError {
    /// No known dish bears the name.
    DishNotFound { name: String },
    /// More than one known dish bears the name.
    AmbiguousDish { name: String },
}

/// The mathematical content of a [`LookupError`].
pub enum LookupFault {
    DishNotFound { name: Seq<char> },
    AmbiguousDish { name: Seq<char> },
}

impl View for LookupError {
    type V = LookupFault;

    open spec fn view(&self) -> LookupFault {
        match *self {
            LookupError::DishNotFound { name } => LookupFault::DishNotFound { name: name@ },
            LookupError::AmbiguousDish { name } => LookupFault::AmbiguousDish { name: name@ },
        }
    }
}

/// The mathematical content of a [`DishIndex`]: names and paths, in order.
pub open spec fn index_view(dishes: Seq<DishPath>) -> Seq<(Seq<char>, Seq<char>)> {
    Seq::new(dishes.len(), |i: int| (dishes[i].name@, dishes[i].path@))
}

impl View for DishIndex {
    type V = Seq<(Seq<char>, Seq<char>)>;

    open spec fn view(&self) -> Seq<(Seq<char>, Seq<char>)> {
        index_view(self.dishes@)
    }
}

/// The paths of the dishes named `name`, in order.
pub open spec fn paths_of(dishes: Seq<(Seq<char>, Seq<char>)>, name: Seq<char>) -> Seq<Seq<char>>
    decreases dishes.len(),
{
    if dishes.len() == 0 {
        Seq::empty()
    } else if dishes.last().0 == name {
        paths_of(dishes.drop_last(), name).push(dishes.last().1)
    } else {
        paths_of(dishes.drop_last(), name)
    }
}

/// Where the recipe of the dish `name` lies: the path of the one dish that
/// bears the name. No such dish, or more than one, is an error.
pub open spec fn resolved(dishes: Seq<(Seq<char>, Seq<char>)>, name: Seq<char>) -> Result<
    Seq<char>,
    LookupFault,
> {
    let paths = paths_of(dishes, name);
    if paths.len() == 0 {
        Err(LookupFault::DishNotFound { name })
    } else if paths.len() == 1 {
        Ok(paths[0])
    } else {
        Err(LookupFault::AmbiguousDish { name })
    }
}

impl DishIndex {
    /// Finds the recipe of the dish `name`.
    pub fn resolve(&self, name: &str) -> (r: Result<String, LookupError>)
        ensures
            match r {
                Ok(path) => resolved(self@, name@) == Ok::<Seq<char>, LookupFault>(path@),
                Err(e) => resolved(self@, name@) == Err::<Seq<char>, LookupFault>(e@),
            },
    {
        let wanted = to_chars(name);
        let mut found: Vec<usize> = Vec::new();
        let mut i: usize = 0;
        while i < self.dishes.len()
            invariant
                i <= self.dishes.len(),
                wanted@ == name@,
                found.len() == paths_of(self@.take(i as int), name@).len(),
                forall|k: int|
                    0 <= k < found.len() ==> (#[trigger] found@[k]) < self.dishes.len()
                        && self.dishes@[found@[k] as int].path@ == paths_of(
                        self@.take(i as int),
                        name@,
                    )[k],
            decreases self.dishes.len() - i,
        {
            assert(self@.take(i + 1).drop_last() == self@.take(i as int));
            if same_text(&to_chars(self.dishes[i].name.as_str()), &wanted) {
                found.push(i);
            }
            i += 1;
        }
        assert(self@.take(i as int) == self@);
        if found.len() == 0 {
            Err(LookupError::DishNotFound { name: name.to_owned() })
        } else if found.len() == 1 {
            Ok(self.dishes[found[0]].path.clone())
        } else {
            Err(LookupError::AmbiguousDish { name: name.to_owned() })
        }
    }
}

} // verus!
