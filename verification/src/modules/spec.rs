//! Module definition format and its validation.

use vstd::prelude::*;

use crate::error::TomeError;
use crate::text::{chars_of, decimal, push_decimal, push_str_chars, string_of, trim, trim_chars};
use crate::tier::Tier;

verus! {

/// Deepest category recursion a module may ask for.
pub const MAX_CATEGORY_DEPTH: u8 = 10;

/// A module: identity, default tier, and the categories and titles that
/// make it up.
#[derive(Debug, PartialEq, Eq)]
pub struct ModuleSpec {
    /// Unique kebab-case identifier (e.g. `"science-basics"`).
    pub id: String,
    pub name: String,
    pub description: Option<String>,
    pub default_tier: Tier,
    pub categories: Vec<CategorySpec>,
    pub explicit_titles: Vec<String>,
}

/// A category and how deep to follow its subcategories.
#[derive(Debug, PartialEq, Eq)]
pub struct CategorySpec {
    pub name: String,
    /// 0 = exact category only; 1 = category + immediate subcats; etc.
    pub depth: u8,
}

/// Whether `c` may appear in a module id.
pub open spec fn is_id_char(c: char) -> bool {
    ('a' <= c && c <= 'z') || ('0' <= c && c <= '9') || c == '-'
}

/// The error text for the first category deeper than the limit, if any.
pub open spec fn depth_error(cats: Seq<CategorySpec>) -> Option<Seq<char>>
    decreases cats.len(),
{
    if cats.len() == 0 {
        None
    } else if cats[0].depth > MAX_CATEGORY_DEPTH {
        Some(
            "category '"@ + cats[0].name@ + "' depth "@ + decimal(cats[0].depth as nat)
                + " exceeds safe limit (10)"@,
        )
    } else {
        depth_error(cats.drop_first())
    }
}

/// Why a module is invalid (the error text), or `None` when it is valid.
pub open spec fn validate_spec(m: ModuleSpec) -> Option<Seq<char>> {
    if m.id@.len() == 0 {
        Some("module id is empty"@)
    } else if !(forall|i: int| 0 <= i < m.id@.len() ==> is_id_char(#[trigger] m.id@[i])) {
        Some("module id '"@ + m.id@ + "' must be ascii kebab-case"@)
    } else if trim(m.name@).len() == 0 {
        Some("module name is empty"@)
    } else if m.categories@.len() == 0 && m.explicit_titles@.len() == 0 {
        Some("module '"@ + m.id@ + "' defines neither categories nor explicit_titles"@)
    } else {
        depth_error(m.categories@)
    }
}

fn other(parts: Vec<char>) -> (r: TomeError)
    ensures
        r matches TomeError::Other(m) && m@ == parts@,
{
    TomeError::Other(string_of(parts.as_slice()))
}

impl ModuleSpec {
    /// Checks the module: a non-empty ascii kebab-case id, a non-blank
    /// name, at least one category or title, and no category deeper than
    /// the limit.
    pub fn validate(&self) -> (r: Result<(), TomeError>)
        ensures
            match validate_spec(*self) {
                None => r is Ok,
                Some(m) => r matches Err(TomeError::Other(x)) && x@ == m,
            },
    {
        let id = chars_of(self.id.as_str());
        if id.len() == 0 {
            let mut out: Vec<char> = Vec::new();
            push_str_chars(&mut out, "module id is empty");
            return Err(other(out));
        }
        let mut i: usize = 0;
        while i < id.len()
            invariant
                i <= id@.len(),
                id@ == self.id@,
                forall|j: int| 0 <= j < i ==> is_id_char(#[trigger] id@[j]),
            decreases id@.len() - i,
        {
            let c = id[i];
            if !(('a' <= c && c <= 'z') || ('0' <= c && c <= '9') || c == '-') {
                let mut out: Vec<char> = Vec::new();
                push_str_chars(&mut out, "module id '");
                push_str_chars(&mut out, self.id.as_str());
                push_str_chars(&mut out, "' must be ascii kebab-case");
                assert(!is_id_char(self.id@[i as int]));
                return Err(other(out));
            }
            i = i + 1;
        }
        let name = chars_of(self.name.as_str());
        let trimmed = trim_chars(name.as_slice());
        if trimmed.len() == 0 {
            let mut out: Vec<char> = Vec::new();
            push_str_chars(&mut out, "module name is empty");
            return Err(other(out));
        }
        if self.categories.len() == 0 && self.explicit_titles.len() == 0 {
            let mut out: Vec<char> = Vec::new();
            push_str_chars(&mut out, "module '");
            push_str_chars(&mut out, self.id.as_str());
            push_str_chars(&mut out, "' defines neither categories nor explicit_titles");
            return Err(other(out));
        }
        let mut k: usize = 0;
        assert(self.categories@.skip(0) == self.categories@);
        while k < self.categories.len()
            invariant
                k <= self.categories@.len(),
                depth_error(self.categories@) == depth_error(self.categories@.skip(k as int)),
                self.id@.len() > 0,
                forall|j: int| 0 <= j < self.id@.len() ==> is_id_char(#[trigger] self.id@[j]),
                trim(self.name@).len() > 0,
                !(self.categories@.len() == 0 && self.explicit_titles@.len() == 0),
            decreases self.categories@.len() - k,
        {
            let ghost rest = self.categories@.skip(k as int);
            assert(rest[0] == self.categories@[k as int]);
            let cat = &self.categories[k];
            if cat.depth > MAX_CATEGORY_DEPTH {
                let mut out: Vec<char> = Vec::new();
                push_str_chars(&mut out, "category '");
                push_str_chars(&mut out, cat.name.as_str());
                push_str_chars(&mut out, "' depth ");
                push_decimal(&mut out, cat.depth as u64);
                push_str_chars(&mut out, " exceeds safe limit (10)");
                assert(out@ =~= "category '"@ + cat.name@ + "' depth "@ + decimal(cat.depth as nat)
                    + " exceeds safe limit (10)"@);
                return Err(other(out));
            }
            assert(rest.drop_first() == self.categories@.skip(k + 1));
            k = k + 1;
        }
        assert(self.categories@.skip(k as int).len() == 0);
        Ok(())
    }
}

/// A module id may hold only lower-case ASCII letters, digits and `-`: an
/// id that holds anything else, an upper-case letter among others, is
/// refused as not kebab-case, before any other check but its emptiness.
pub proof fn law_id_must_be_kebab_case(m: ModuleSpec, i: int)
    requires
        m.id@.len() > 0,
        0 <= i < m.id@.len(),
        !(('a' <= m.id@[i] && m.id@[i] <= 'z') || ('0' <= m.id@[i] && m.id@[i] <= '9') || m.id@[i] == '-'),
    ensures
        validate_spec(m) == Some("module id '"@ + m.id@ + "' must be ascii kebab-case"@),
{
    assert(!is_id_char(m.id@[i]));
}

/// In particular an id with an upper-case letter is refused.
pub proof fn law_upper_case_id_refused(m: ModuleSpec, i: int)
    requires
        0 <= i < m.id@.len(),
        'A' <= m.id@[i] && m.id@[i] <= 'Z',
    ensures
        validate_spec(m) == Some("module id '"@ + m.id@ + "' must be ascii kebab-case"@),
{
    law_id_must_be_kebab_case(m, i);
}

/// A module with a non-empty kebab-case id, a name that is not blank, at
/// least one category or explicit title, and no category deeper than the
/// limit is valid.
pub proof fn law_well_formed_module_valid(m: ModuleSpec)
    requires
        m.id@.len() > 0,
        forall|i: int|
            0 <= i < m.id@.len() ==> ('a' <= #[trigger] m.id@[i] && m.id@[i] <= 'z') || ('0' <= m.id@[i]
                && m.id@[i] <= '9') || m.id@[i] == '-',
        trim(m.name@).len() > 0,
        m.categories@.len() > 0 || m.explicit_titles@.len() > 0,
        forall|k: int| 0 <= k < m.categories@.len() ==> (#[trigger] m.categories@[k]).depth <= 10,
    ensures
        validate_spec(m) is None,
{
    law_depth_limit(m.categories@);
}

/// The depth check refuses exactly the category lists with a category
/// deeper than 10, naming the first such category.
pub proof fn law_depth_limit(cats: Seq<CategorySpec>)
    ensures
        depth_error(cats) is None <==> forall|k: int| 0 <= k < cats.len() ==> (#[trigger] cats[k]).depth <= 10,
        forall|k: int|
            0 <= k < cats.len() && (#[trigger] cats[k]).depth > 10 && (forall|j: int|
                0 <= j < k ==> cats[j].depth <= 10) ==> depth_error(cats) == Some(
                "category '"@ + cats[k].name@ + "' depth "@ + decimal(cats[k].depth as nat)
                    + " exceeds safe limit (10)"@,
            ),
    decreases cats.len(),
{
    if cats.len() > 0 {
        let t = cats.drop_first();
        law_depth_limit(t);
        if cats[0].depth <= 10 {
            assert((forall|k: int| 0 <= k < cats.len() ==> (#[trigger] cats[k]).depth <= 10) <==> (forall|k: int|
                0 <= k < t.len() ==> (#[trigger] t[k]).depth <= 10)) by {
                if forall|k: int| 0 <= k < t.len() ==> (#[trigger] t[k]).depth <= 10 {
                    assert forall|k: int| 0 <= k < cats.len() implies (#[trigger] cats[k]).depth <= 10 by {
                        if k > 0 {
                            assert(cats[k] == t[k - 1]);
                        }
                    }
                }
                if forall|k: int| 0 <= k < cats.len() ==> (#[trigger] cats[k]).depth <= 10 {
                    assert forall|k: int| 0 <= k < t.len() implies (#[trigger] t[k]).depth <= 10 by {
                        assert(t[k] == cats[k + 1]);
                    }
                }
            }
            assert forall|k: int|
                0 <= k < cats.len() && (#[trigger] cats[k]).depth > 10 && (forall|j: int|
                    0 <= j < k ==> cats[j].depth <= 10) implies depth_error(cats) == Some(
                "category '"@ + cats[k].name@ + "' depth "@ + decimal(cats[k].depth as nat)
                    + " exceeds safe limit (10)"@,
            ) by {
                assert(k > 0);
                assert(t[k - 1] == cats[k]);
                assert forall|j: int| 0 <= j < k - 1 implies t[j].depth <= 10 by {
                    assert(t[j] == cats[j + 1]);
                }
            }
        } else {
            assert(!(forall|k: int| 0 <= k < cats.len() ==> (#[trigger] cats[k]).depth <= 10)) by {
                assert(cats[0].depth > 10);
            }
        }
    }
}

} // verus!
