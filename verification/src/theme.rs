use vstd::prelude::*;
use vstd::string::*;
use crate::text::same_text;

verus! {

/// The templates and the stylesheet of a theme, as they were read.
#[derive(Debug)]
pub struct Theme {
    /// Each template's name and text.
    pub templates: Vec<(String, String)>,
    /// The theme's own stylesheet, where it has one.
    pub global_css: Option<String>,
}

/// Which outer template a page is rendered with.
#[derive(Debug, Clone, Copy, PartialEq, Eq, Structural)]
pub enum TemplateKind {
    /// The page itself.
    App,
    /// Its AMP variant.
    Amp,
}

impl TemplateKind {
    /// The name of the outer template.
    pub open spec fn name(self) -> Seq<char> {
        match self {
            TemplateKind::App => "app"@,
            TemplateKind::Amp => "amp"@,
        }
    }

    /// The name of the outer template.
    pub fn template_name(&self) -> (name: &'static str)
        ensures
            name@ == self.name(),
    {
        match self {
            TemplateKind::App => "app",
            TemplateKind::Amp => "amp",
        }
    }
}

/// The text of the first template of that name, if there is one.
pub open spec fn template_text(templates: Seq<(String, String)>, name: Seq<char>) -> Option<
    Seq<char>,
>
    decreases templates.len(),
{
    if templates.len() == 0 {
        None
    } else if templates[0].0@ == name {
        Some(templates[0].1@)
    } else {
        template_text(templates.skip(1), name)
    }
}

impl Theme {
    /// The text of the template `name`, if the theme has it.
    pub fn get_template(&self, name: &str) -> (out: Option<String>)
        ensures
            match out {
                Some(text) => template_text(self.templates@, name@) == Some(text@),
                None => template_text(self.templates@, name@) is None,
            },
    {
        let mut i: usize = 0;
        assert(self.templates@.skip(0) == self.templates@);
        while i < self.templates.len()
            invariant
                i <= self.templates.len(),
                template_text(self.templates@, name@) == template_text(
                    self.templates@.skip(i as int),
                    name@,
                ),
            decreases self.templates.len() - i,
        {
            proof {
                assert(self.templates@.skip(i as int).skip(1) == self.templates@.skip(i + 1));
                assert(self.templates@.skip(i as int)[0] == self.templates@[i as int]);
            }
            if same_text(self.templates[i].0.as_str(), name) {
                return Some(self.templates[i].1.clone());
            }
            i += 1;
        }
        None
    }

    /// Whether the theme has a template for AMP variants.
    pub fn has_amp(&self) -> (out: bool)
        ensures
            out == template_text(self.templates@, "amp"@) is Some,
    {
        self.get_template("amp").is_some()
    }
}

} // verus!
