use vstd::prelude::*;
use vstd::string::StringExecFns;
use crate::text::push_char;

verus! {

/// How one flag occurrence was spelled on the command line: by its short
/// character or by its long name.
#[derive(Debug, PartialEq)]
pub struct Name {
    style: Style,
}

#[derive(Debug, PartialEq)]
enum Style {
    Short(char),
    Long(String),
}

/// Mathematical model of a [`Name`].
pub enum NameModel {
    Short(char),
    Long(Seq<char>),
}

impl View for Name {
    type V = NameModel;

    closed spec fn view(&self) -> NameModel {
        match self.style {
            Style::Short(ch) => NameModel::Short(ch),
            Style::Long(ref s) => NameModel::Long(s@),
        }
    }
}

/// The spelling of a flag name with its leading dashes, as it appears in
/// diagnostics: `-c` for a short name, `--name` for a long one.
pub open spec fn name_text(n: NameModel) -> Seq<char> {
    match n {
        NameModel::Short(ch) => seq!['-', ch],
        NameModel::Long(s) => seq!['-', '-'] + s,
    }
}

impl Name {
    /// A short flag name.
    pub fn short(ch: char) -> (n: Name)
        ensures
            n@ == NameModel::Short(ch),
    {
        Name { style: Style::Short(ch) }
    }

    /// A long flag name, without the leading dashes.
    pub fn long(name: String) -> (n: Name)
        ensures
            n@ == NameModel::Long(name@),
    {
        Name { style: Style::Long(name) }
    }

    /// Render the name with its dashes for a diagnostic line.
    pub fn to_text(&self) -> (t: String)
        ensures
            t@ == name_text(self@),
    {
        match &self.style {
            Style::Short(ch) => {
                let mut t = String::new();
                push_char(&mut t, '-');
                push_char(&mut t, *ch);
                proof {
                    assert(t@ =~= seq!['-', *ch]);
                }
                t
            },
            Style::Long(name) => {
                let mut t = String::new();
                push_char(&mut t, '-');
                push_char(&mut t, '-');
                t.append(name.as_str());
                proof {
                    assert(t@ =~= seq!['-', '-'] + name@);
                }
                t
            },
        }
    }
}

} // verus!
