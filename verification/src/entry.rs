//! An application read from a `.desktop` file, and how well it matches a query.
use vstd::prelude::*;
use crate::text::{
    chars_eq, contains_chars, contains_seq, lowercase, matches_at, starts_with_seq, to_lowercase,
    trim, trim_string,
};

verus! {

/// An application entry.
#[derive(Debug, Clone)]
pub struct DesktopEntry {
    /// The file name of the `.desktop` file, used as the application's identity.
    pub id: String,
    pub name: String,
    pub generic_name: Option<String>,
    pub comment: Option<String>,
    pub exec_command: String,
    pub icon: Option<String>,
    /// The path of the `.desktop` file.
    pub source: String,
}

/// The characters of an optional string.
pub open spec fn opt_view(o: Option<String>) -> Option<Seq<char>> {
    match o {
        Some(s) => Some(s@),
        None => None,
    }
}

/// The line shown under the name: the comment, else the generic name, else the command.
pub open spec fn subtitle_spec(e: DesktopEntry) -> Seq<char> {
    match e.comment {
        Some(c) => c@,
        None => match e.generic_name {
            Some(g) => g@,
            None => e.exec_command@,
        },
    }
}

/// Rank of the entry for `query` (lower is better), `None` when it does not match:
/// a query that is empty once trimmed gives 100; otherwise, comparing lowercase
/// forms of the trimmed query and the texts, a name equal to
/// the query gives 0, a name that starts with it 10, a name that contains it 20, a
/// generic name that contains it 40, a comment that contains it 60.
pub open spec fn rank_spec(e: DesktopEntry, query: Seq<char>) -> Option<i32> {
    let q = lowercase(trim(query));
    let name = lowercase(e.name@);
    if trim(query).len() == 0 {
        Some(100)
    } else if name == q {
        Some(0)
    } else if starts_with_seq(name, q) {
        Some(10)
    } else if contains_seq(name, q) {
        Some(20)
    } else if (e.generic_name matches Some(g) && contains_seq(lowercase(g@), q)) {
        Some(40)
    } else if (e.comment matches Some(c) && contains_seq(lowercase(c@), q)) {
        Some(60)
    } else {
        None
    }
}

/// An application matches a query exactly when the query, once trimmed, is
/// blank or its lowercase form occurs in the lowercase name, generic name or
/// comment; each field is looked at on its own, and the rank is that of the
/// best field that matches: 0 for the name itself, 10 for a name starting with
/// the query, 20 for a name containing it, 40 for the generic name, 60 for the
/// comment (and 100 for a blank query).
pub proof fn rank_is_that_of_the_best_matching_field(e: DesktopEntry, query: Seq<char>)
    ensures
        ({
            let q = lowercase(trim(query));
            let name = lowercase(e.name@);
            let blank = trim(query).len() == 0;
            let in_generic = (e.generic_name matches Some(g) && contains_seq(lowercase(g@), q));
            let in_comment = (e.comment matches Some(c) && contains_seq(lowercase(c@), q));
            &&& (rank_spec(e, query) is Some) <==> (blank || contains_seq(name, q) || in_generic
                || in_comment)
            &&& blank ==> rank_spec(e, query) == Some(100i32)
            &&& !blank && name == q ==> rank_spec(e, query) == Some(0i32)
            &&& !blank && name != q && starts_with_seq(name, q) ==> rank_spec(e, query) == Some(10i32)
            &&& !blank && !starts_with_seq(name, q) && contains_seq(name, q) ==> rank_spec(e, query)
                == Some(20i32)
            &&& !blank && !contains_seq(name, q) && in_generic ==> rank_spec(e, query) == Some(40i32)
            &&& !blank && !contains_seq(name, q) && !in_generic && in_comment ==> rank_spec(e, query)
                == Some(60i32)
        }),
{
    let q = lowercase(trim(query));
    let name = lowercase(e.name@);
    if name == q {
        assert(name.subrange(0, q.len() as int) =~= q);
        assert(crate::text::occurs_at(name, q, 0));
    }
    if starts_with_seq(name, q) {
        assert(crate::text::occurs_at(name, q, 0));
    }
}

fn clone_opt(o: &Option<String>) -> (r: Option<String>)
    ensures
        r == *o,
{
    match o {
        Some(s) => Some(s.clone()),
        None => None,
    }
}

impl DesktopEntry {
    /// The line shown under the name.
    pub fn subtitle(&self) -> (r: &str)
        ensures
            r@ == subtitle_spec(*self),
    {
        match &self.comment {
            Some(c) => c.as_str(),
            None => match &self.generic_name {
                Some(g) => g.as_str(),
                None => self.exec_command.as_str(),
            },
        }
    }

    /// How well the entry matches `query`; see `rank_spec`.
    pub fn rank(&self, query: &str) -> (r: Option<i32>)
        ensures
            r == rank_spec(*self, query@),
    {
        let trimmed = trim_string(query);
        let q = to_lowercase(trimmed.as_str());
        if q.len() == 0 {
            return Some(100);
        }
        let name = to_lowercase(self.name.as_str());
        if chars_eq(&name, &q) {
            return Some(0);
        }
        if matches_at(&name, &q, 0) {
            return Some(10);
        }
        if contains_chars(&name, &q) {
            return Some(20);
        }
        if let Some(g) = &self.generic_name {
            let g = to_lowercase(g.as_str());
            if contains_chars(&g, &q) {
                return Some(40);
            }
        }
        if let Some(c) = &self.comment {
            let c = to_lowercase(c.as_str());
            if contains_chars(&c, &q) {
                return Some(60);
            }
        }
        None
    }

    /// A copy of the entry, equal to it field by field.
    pub fn duplicate(&self) -> (r: DesktopEntry)
        ensures
            r == *self,
    {
        DesktopEntry {
            id: self.id.clone(),
            name: self.name.clone(),
            generic_name: clone_opt(&self.generic_name),
            comment: clone_opt(&self.comment),
            exec_command: self.exec_command.clone(),
            icon: clone_opt(&self.icon),
            source: self.source.clone(),
        }
    }
}

} // verus!
