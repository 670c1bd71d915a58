use vstd::prelude::*;
use crate::text::{
    str_chars, chars_to_string, trim_chars, trim_end_char, chars_eq_str, spec_trim,
    spec_trim_end_char,
};
use crate::errors::HnError;

verus! {

/// What the generic row query reads of a profile document: for each row, the
/// plain text and the inner markup of each of its cells, in order.
pub struct ProfileRow {
    /// One `(text, markup)` pair per cell.
    pub cells: Vec<(String, String)>,
}

/// Labeled profile fields, each present only when a row with the matching
/// label was found. The about field keeps inner markup, since about sections
/// may carry formatting; all others are plain text.
#[derive(Debug, Clone, PartialEq)]
pub struct UserProfile {
    pub username: Option<String>,
    pub created: Option<String>,
    pub karma: Option<String>,
    pub about_html: Option<String>,
}

#[verifier::ext_equal]
pub ghost struct UserProfileView {
    pub username: Option<Seq<char>>,
    pub created: Option<Seq<char>>,
    pub karma: Option<Seq<char>>,
    pub about_html: Option<Seq<char>>,
}

impl View for UserProfile {
    type V = UserProfileView;

    open spec fn view(&self) -> UserProfileView {
        UserProfileView {
            username: crate::story::view_opt_str(self.username),
            created: crate::story::view_opt_str(self.created),
            karma: crate::story::view_opt_str(self.karma),
            about_html: crate::story::view_opt_str(self.about_html),
        }
    }
}

pub open spec fn spec_empty_profile() -> UserProfileView {
    UserProfileView { username: None, created: None, karma: None, about_html: None }
}

/// A row counts only if it has exactly two cells and its first cell's
/// trimmed text ends with a colon; the label is that text with every
/// trailing colon stripped.
pub open spec fn spec_row_label(row: ProfileRow) -> Option<Seq<char>> {
    if row.cells@.len() == 2 {
        let f = spec_trim(row.cells@[0].0@);
        if f.len() > 0 && f.last() == ':' {
            Some(spec_trim_end_char(f, ':'))
        } else {
            None
        }
    } else {
        None
    }
}

pub open spec fn spec_recognized(row: ProfileRow) -> bool {
    match spec_row_label(row) {
        Some(l) => l == "user"@ || l == "created"@ || l == "karma"@ || l == "about"@,
        None => false,
    }
}

/// How one row updates the accumulated profile; labels are case-sensitive,
/// unrecognized labels change nothing, and a repeated label overwrites.
pub open spec fn spec_apply_row(acc: UserProfileView, row: ProfileRow) -> UserProfileView {
    match spec_row_label(row) {
        Some(l) => if l == "user"@ {
            UserProfileView { username: Some(spec_trim(row.cells@[1].0@)), ..acc }
        } else if l == "created"@ {
            UserProfileView { created: Some(spec_trim(row.cells@[1].0@)), ..acc }
        } else if l == "karma"@ {
            UserProfileView { karma: Some(spec_trim(row.cells@[1].0@)), ..acc }
        } else if l == "about"@ {
            UserProfileView { about_html: Some(spec_trim(row.cells@[1].1@)), ..acc }
        } else {
            acc
        },
        None => acc,
    }
}

pub open spec fn spec_profile_upto(rows: Seq<ProfileRow>, n: int) -> UserProfileView
    decreases n,
{
    if n <= 0 {
        spec_empty_profile()
    } else {
        spec_apply_row(spec_profile_upto(rows, n - 1), rows[n - 1])
    }
}

pub open spec fn spec_found_upto(rows: Seq<ProfileRow>, n: int) -> bool
    decreases n,
{
    if n <= 0 {
        false
    } else {
        spec_found_upto(rows, n - 1) || spec_recognized(rows[n - 1])
    }
}

pub open spec fn spec_profile(rows: Seq<ProfileRow>) -> UserProfileView {
    spec_profile_upto(rows, rows.len() as int)
}

pub open spec fn spec_found(rows: Seq<ProfileRow>) -> bool {
    spec_found_upto(rows, rows.len() as int)
}

/// Fold the queried two-cell rows into a profile. Fails exactly when no
/// recognized label occurs at all: the user is unknown, or nothing public.
pub fn extract_profile_rows(rows: &Vec<ProfileRow>) -> (r: Result<UserProfile, HnError>)
    ensures
        match r {
            Ok(p) => spec_found(rows@) && p@ == spec_profile(rows@),
            Err(e) => !spec_found(rows@) && e == HnError::ProfileNotFound,
        },
{
    let mut acc = UserProfile { username: None, created: None, karma: None, about_html: None };
    let mut found: bool = false;
    let mut i: usize = 0;
    proof {
        assert(acc@ =~= spec_profile_upto(rows@, 0));
    }
    while i < rows.len()
        invariant
            0 <= i <= rows@.len(),
            acc@ == spec_profile_upto(rows@, i as int),
            found == spec_found_upto(rows@, i as int),
        decreases rows@.len() - i,
    {
        let row = &rows[i];
        let ghost prev = acc@;
        if row.cells.len() == 2 {
            let fc = str_chars(row.cells[0].0.as_str());
            let f = trim_chars(&fc);
            if f.len() > 0 && f[f.len() - 1] == ':' {
                proof {
                    assert(f@.last() == f@[f@.len() - 1]);
                }
                let label = trim_end_char(&f, ':');
                if chars_eq_str(&label, "user") {
                    let vc = str_chars(row.cells[1].0.as_str());
                    let v = trim_chars(&vc);
                    acc.username = Some(chars_to_string(&v));
                    found = true;
                } else if chars_eq_str(&label, "created") {
                    let vc = str_chars(row.cells[1].0.as_str());
                    let v = trim_chars(&vc);
                    acc.created = Some(chars_to_string(&v));
                    found = true;
                } else if chars_eq_str(&label, "karma") {
                    let vc = str_chars(row.cells[1].0.as_str());
                    let v = trim_chars(&vc);
                    acc.karma = Some(chars_to_string(&v));
                    found = true;
                } else if chars_eq_str(&label, "about") {
                    let vc = str_chars(row.cells[1].1.as_str());
                    let v = trim_chars(&vc);
                    acc.about_html = Some(chars_to_string(&v));
                    found = true;
                }
            }
        }
        proof {
            assert(acc@ =~= spec_apply_row(prev, rows@[i as int]));
        }
        i = i + 1;
    }
    if found {
        Ok(acc)
    } else {
        Err(HnError::ProfileNotFound)
    }
}

} // verus!
