//! Template manager for trigger code generation.
use vstd::prelude::*;

use super::error::GenerateTriggerError;
use crate::generate_action::template_manager::{
    message2, message3, message4, read_failure_message, render_of, template_file,
    template_file_exec,
};
use crate::templates::{render_template, vars_view, TemplateStore};

verus! {

/// Template manager for handling trigger code generation templates.
pub struct TemplateManager {
    templates: TemplateStore,
}

impl View for TemplateManager {
    type V = Map<Seq<char>, Seq<char>>;

    closed spec fn view(&self) -> Map<Seq<char>, Seq<char>> {
        self.templates@
    }
}

impl TemplateManager {
    /// Create a new template manager.
    pub fn new() -> (r: TemplateManager)
        ensures
            r@ == Map::<Seq<char>, Seq<char>>::empty(),
    {
        TemplateManager { templates: TemplateStore::new() }
    }

    /// Store a template's content under its name.
    pub fn insert_template(&mut self, name: &str, content: String)
        ensures
            final(self)@ == old(self)@.insert(name@, content@),
    {
        self.templates.insert(name.to_owned(), content);
    }

    /// Load a template from the file `path`, read by `read_file`.
    pub fn load_template<F: Fn(&str) -> Result<String, String>>(
        &mut self,
        name: &str,
        path: &str,
        read_file: &F,
    ) -> (r: Result<(), GenerateTriggerError>)
        requires
            call_requires(*read_file, (path,)),
        ensures
            match r {
                Ok(()) => exists|c: String|
                    #[trigger] call_ensures(*read_file, (path,), Ok::<String, String>(c))
                        && final(self)@ == old(self)@.insert(name@, c@),
                Err(e) => final(self)@ == old(self)@ && exists|m: String|
                    #[trigger] call_ensures(*read_file, (path,), Err::<String, String>(m)) && (e
                        matches GenerateTriggerError::TemplateError(msg) && msg@
                        == read_failure_message(name@, m@)),
            },
    {
        match read_file(path) {
            Ok(content) => {
                self.insert_template(name, content);
                Ok(())
            },
            Err(m) => Err(
                GenerateTriggerError::TemplateError(
                    message4("Failed to read template '", name, "': ", m.as_str()),
                ),
            ),
        }
    }

    /// Load the trigger executor template from the directory `templates_dir`
    /// (helper functions are embedded in it).
    pub fn load_standard_templates<F: Fn(&str) -> Result<String, String>>(
        &mut self,
        templates_dir: &str,
        read_file: &F,
    ) -> (r: Result<(), GenerateTriggerError>)
        requires
            forall|p: &str| call_requires(*read_file, (p,)),
        ensures
            match r {
                Ok(()) => exists|p: &str, c: String|
                    #[trigger] call_ensures(*read_file, (p,), Ok::<String, String>(c)) && p@
                        == template_file(templates_dir@, "trigger_executor"@) && final(self)@
                        == old(self)@.insert("trigger_executor"@, c@),
                Err(e) => final(self)@ == old(self)@ && exists|p: &str, m: String|
                    #[trigger] call_ensures(*read_file, (p,), Err::<String, String>(m)) && p@
                        == template_file(templates_dir@, "trigger_executor"@) && (e
                        matches GenerateTriggerError::TemplateError(msg) && msg@
                        == read_failure_message("trigger_executor"@, m@)),
            },
    {
        let path = template_file_exec(templates_dir, "trigger_executor");
        self.load_template("trigger_executor", path.as_str(), read_file)
    }

    /// Render a template with variables, replaced in the order given.
    pub fn render(&self, template_name: &str, variables: &Vec<(String, String)>) -> (r: Result<
        String,
        GenerateTriggerError,
    >)
        ensures
            match render_of(self@, template_name@, vars_view(variables@)) {
                Ok(t) => r matches Ok(s) && s@ == t,
                Err(m) => r matches Err(GenerateTriggerError::TemplateError(e)) && e@ == m,
            },
    {
        let template = match self.templates.get(template_name) {
            Some(t) => t,
            None => {
                return Err(
                    GenerateTriggerError::TemplateError(
                        message3("Template '", template_name, "' not found"),
                    ),
                );
            },
        };
        match render_template(template, variables) {
            Ok(s) => Ok(s),
            Err(ph) => Err(
                GenerateTriggerError::TemplateError(
                    message2("Unresolved placeholder: ", ph.as_str()),
                ),
            ),
        }
    }
}

impl Default for TemplateManager {
    /// An empty template manager, as `new` makes.
    fn default() -> (r: TemplateManager)
        ensures
            r@ == Map::<Seq<char>, Seq<char>>::empty(),
    {
        TemplateManager::new()
    }
}

} // verus!
