//! Template manager for handling code generation templates.
use vstd::prelude::*;

use super::error::GenerateActionError;
use crate::templates::{render_spec, render_template, vars_view, TemplateStore};
use crate::text::{append_str, chars_of, string_of};

verus! {

/// Template manager for handling code generation templates.
pub struct TemplateManager {
    templates: TemplateStore,
}

impl View for TemplateManager {
    type V = Map<Seq<char>, Seq<char>>;

    closed spec fn view(&self) -> Map<Seq<char>, Seq<char>> {
        self.templates@
    }
}

/// `Failed to read template '<name>': <message>`.
pub open spec fn read_failure_message(name: Seq<char>, message: Seq<char>) -> Seq<char> {
    "Failed to read template '"@ + name + "': "@ + message
}

/// `Template '<name>' not found`.
pub open spec fn not_found_message(name: Seq<char>) -> Seq<char> {
    "Template '"@ + name + "' not found"@
}

/// `Unresolved placeholder: <placeholder>`.
pub open spec fn unresolved_message(placeholder: Seq<char>) -> Seq<char> {
    "Unresolved placeholder: "@ + placeholder
}

/// What rendering the template `name` with the variables `vars` gives: the
/// text, or the message of the template error.
pub open spec fn render_of(
    templates: Map<Seq<char>, Seq<char>>,
    name: Seq<char>,
    vars: Seq<(Seq<char>, Seq<char>)>,
) -> Result<Seq<char>, Seq<char>> {
    if !templates.dom().contains(name) {
        Err(not_found_message(name))
    } else {
        match render_spec(templates[name], vars) {
            Ok(t) => Ok(t),
            Err(ph) => Err(unresolved_message(ph)),
        }
    }
}

/// The template `name` holds what `read_file` gave for its file in `dir`.
pub open spec fn loaded_from<F: Fn(&str) -> Result<String, String>>(
    templates: Map<Seq<char>, Seq<char>>,
    read_file: F,
    dir: Seq<char>,
    name: Seq<char>,
) -> bool {
    exists|p: &str, c: String|
        p@ == template_file(dir, name) && #[trigger] call_ensures(
            read_file,
            (p,),
            Ok::<String, String>(c),
        ) && templates.dom().contains(name) && templates[name] == c@
}

/// After the read of the standard template `k` failed: each standard
/// template before it holds what was read for it, and every other name
/// holds what it held before.
pub open spec fn loaded_before_failure<F: Fn(&str) -> Result<String, String>>(
    before: Map<Seq<char>, Seq<char>>,
    after: Map<Seq<char>, Seq<char>>,
    read_file: F,
    dir: Seq<char>,
    k: int,
) -> bool {
    &&& forall|j: int|
        0 <= j < k ==> loaded_from(after, read_file, dir, #[trigger] standard_template_names()[j])
    &&& forall|n: Seq<char>|
        !standard_template_names().take(k).contains(n) ==> (#[trigger] after.dom().contains(n)
            == before.dom().contains(n) && (before.dom().contains(n) ==> after[n] == before[n]))
}

/// The standard templates of action generation, by name.
pub open spec fn standard_template_names() -> Seq<Seq<char>> {
    seq![
        "get_executor"@,
        "delete_executor"@,
        "post_patch_executor"@,
        "path_parameter_functions"@,
        "query_parameter_functions"@,
    ]
}

/// The file of the standard template `name` in `dir`.
pub open spec fn template_file(dir: Seq<char>, name: Seq<char>) -> Seq<char> {
    dir + "/"@ + name + ".rs.template"@
}

pub(crate) fn template_file_exec(dir: &str, name: &str) -> (r: String)
    ensures
        r@ == template_file(dir@, name@),
{
    let mut v = chars_of(dir);
    append_str(&mut v, "/");
    append_str(&mut v, name);
    append_str(&mut v, ".rs.template");
    string_of(&v)
}

pub(crate) fn message2(a: &str, b: &str) -> (r: String)
    ensures
        r@ == a@ + b@,
{
    let mut v = chars_of(a);
    append_str(&mut v, b);
    string_of(&v)
}

pub(crate) fn message3(a: &str, b: &str, c: &str) -> (r: String)
    ensures
        r@ == a@ + b@ + c@,
{
    let mut v = chars_of(a);
    append_str(&mut v, b);
    append_str(&mut v, c);
    string_of(&v)
}

pub(crate) fn message4(a: &str, b: &str, c: &str, d: &str) -> (r: String)
    ensures
        r@ == a@ + b@ + c@ + d@,
{
    let mut v = chars_of(a);
    append_str(&mut v, b);
    append_str(&mut v, c);
    append_str(&mut v, d);
    string_of(&v)
}

impl TemplateManager {
    /// Create a new template manager.
    pub fn new() -> (r: TemplateManager)
        ensures
            r@ == Map::<Seq<char>, Seq<char>>::empty(),
    {
        TemplateManager { templates: TemplateStore::new() }
    }

    /// Store a template's content under its name.
    pub fn insert_template(&mut self, name: &str, content: String)
        ensures
            final(self)@ == old(self)@.insert(name@, content@),
    {
        self.templates.insert(name.to_owned(), content);
    }

    /// Load a template from the file `path`, read by `read_file`.
    pub fn load_template<F: Fn(&str) -> Result<String, String>>(
        &mut self,
        name: &str,
        path: &str,
        read_file: &F,
    ) -> (r: Result<(), GenerateActionError>)
        requires
            call_requires(*read_file, (path,)),
        ensures
            match r {
                Ok(()) => exists|c: String|
                    #[trigger] call_ensures(*read_file, (path,), Ok::<String, String>(c))
                        && final(self)@ == old(self)@.insert(name@, c@),
                Err(e) => final(self)@ == old(self)@ && exists|m: String|
                    #[trigger] call_ensures(*read_file, (path,), Err::<String, String>(m)) && (e
                        matches GenerateActionError::TemplateError(msg) && msg@
                        == read_failure_message(name@, m@)),
            },
    {
        match read_file(path) {
            Ok(content) => {
                self.insert_template(name, content);
                Ok(())
            },
            Err(m) => Err(
                GenerateActionError::TemplateError(
                    message4("Failed to read template '", name, "': ", m.as_str()),
                ),
            ),
        }
    }

    /// Load all standard templates from the directory `templates_dir`, each
    /// file read by `read_file`.
    pub fn load_standard_templates<F: Fn(&str) -> Result<String, String>>(
        &mut self,
        templates_dir: &str,
        read_file: &F,
    ) -> (r: Result<(), GenerateActionError>)
        requires
            forall|p: &str| call_requires(*read_file, (p,)),
        ensures
            r is Ok ==> forall|i: int|
                0 <= i < standard_template_names().len() ==> loaded_from(
                    final(self)@,
                    *read_file,
                    templates_dir@,
                    #[trigger] standard_template_names()[i],
                ),
            r is Ok ==> forall|k: Seq<char>|
                !standard_template_names().contains(k) ==> (
                #[trigger] final(self)@.dom().contains(k) == old(self)@.dom().contains(k)
                    && (old(self)@.dom().contains(k) ==> final(self)@[k] == old(self)@[k])),
            r matches Err(e) ==> exists|i: int, p: &str, m: String|
                #![trigger call_ensures(*read_file, (p,), Err::<String, String>(m)), standard_template_names()[i]]
                0 <= i < standard_template_names().len() && p@ == template_file(
                    templates_dir@,
                    standard_template_names()[i],
                ) && call_ensures(*read_file, (p,), Err::<String, String>(m)) && (e
                    matches GenerateActionError::TemplateError(msg) && msg@ == read_failure_message(
                    standard_template_names()[i],
                    m@,
                )) && loaded_before_failure(old(self)@, final(self)@, *read_file, templates_dir@, i),
    {
        let ghost m0 = self@;
        let names = ["get_executor", "delete_executor", "post_patch_executor", "path_parameter_functions", "query_parameter_functions"];
        let mut i: usize = 0;
        while i < 5
            invariant
                i <= 5,
                forall|p: &str| call_requires(*read_file, (p,)),
                forall|j: int| 0 <= j < 5 ==> #[trigger] names@[j]@ == standard_template_names()[j],
                forall|j: int|
                    0 <= j < i ==> loaded_from(
                        self@,
                        *read_file,
                        templates_dir@,
                        #[trigger] standard_template_names()[j],
                    ),
                forall|k: Seq<char>|
                    !standard_template_names().take(i as int).contains(k) ==> (
                    #[trigger] self@.dom().contains(k) == m0.dom().contains(k) && (m0.dom().contains(
                        k,
                    ) ==> self@[k] == m0[k])),
                m0 == old(self)@,
            decreases 5 - i,
        {
            let path = template_file_exec(templates_dir, names[i]);
            let ghost before = self@;
            let file: &str = path.as_str();
            match self.load_template(names[i], file, read_file) {
                Ok(()) => {},
                Err(e) => {
                    assert(standard_template_names()[i as int] == names@[i as int]@);
                    assert(loaded_before_failure(m0, self@, *read_file, templates_dir@, i as int));
                    return Err(e);
                },
            }
            proof {
                let c = choose|c: String|
                    #[trigger] call_ensures(*read_file, (file,), Ok::<String, String>(c))
                        && self@ == before.insert(names@[i as int]@, c@);
                assert(self@ == before.insert(names@[i as int]@, c@));
                assert(standard_template_names()[i as int] == names@[i as int]@);
                assert(loaded_from(self@, *read_file, templates_dir@, names@[i as int]@));
                assert forall|j: int| 0 <= j < i + 1 implies loaded_from(
                    self@,
                    *read_file,
                    templates_dir@,
                    #[trigger] standard_template_names()[j],
                ) by {
                    if j < i {
                        let n = standard_template_names()[j];
                        assert(loaded_from(before, *read_file, templates_dir@, n));
                        if n != names@[i as int]@ {
                            let (p, c2) = choose|p: &str, c2: String|
                                p@ == template_file(templates_dir@, n) && #[trigger] call_ensures(
                                    *read_file,
                                    (p,),
                                    Ok::<String, String>(c2),
                                ) && before.dom().contains(n) && before[n] == c2@;
                            assert(self@.dom().contains(n) && self@[n] == c2@);
                        }
                    }
                }
                assert forall|k: Seq<char>|
                    !standard_template_names().take(i + 1).contains(k) implies (
                #[trigger] self@.dom().contains(k) == m0.dom().contains(k) && (m0.dom().contains(k)
                    ==> self@[k] == m0[k])) by {
                    if k == names@[i as int]@ {
                        assert(standard_template_names().take(i + 1)[i as int] == k);
                    }
                    if standard_template_names().take(i as int).contains(k) {
                        let j = choose|j: int|
                            0 <= j < i && standard_template_names().take(i as int)[j] == k;
                        assert(standard_template_names().take(i + 1)[j] == k);
                    }
                }
            }
            i = i + 1;
        }
        assert(standard_template_names().take(5) =~= standard_template_names());
        Ok(())
    }

    /// Render a template with variables, replaced in the order given.
    pub fn render(&self, template_name: &str, variables: &Vec<(String, String)>) -> (r: Result<
        String,
        GenerateActionError,
    >)
        ensures
            match render_of(self@, template_name@, vars_view(variables@)) {
                Ok(t) => r matches Ok(s) && s@ == t,
                Err(m) => r matches Err(GenerateActionError::TemplateError(e)) && e@ == m,
            },
    {
        let template = match self.templates.get(template_name) {
            Some(t) => t,
            None => {
                return Err(
                    GenerateActionError::TemplateError(
                        message3("Template '", template_name, "' not found"),
                    ),
                );
            },
        };
        match render_template(template, variables) {
            Ok(s) => Ok(s),
            Err(ph) => Err(
                GenerateActionError::TemplateError(
                    message2("Unresolved placeholder: ", ph.as_str()),
                ),
            ),
        }
    }

    /// Get a template by name.
    pub fn get_template(&self, name: &str) -> (r: Option<&String>)
        ensures
            match r {
                Some(s) => self@.dom().contains(name@) && s@ == self@[name@],
                None => !self@.dom().contains(name@),
            },
    {
        self.templates.get(name)
    }

    /// Check if a template exists.
    pub fn has_template(&self, name: &str) -> (r: bool)
        ensures
            r == self@.dom().contains(name@),
    {
        self.templates.contains(name)
    }

    /// List all loaded template names, each once.
    pub fn list_templates(&self) -> (r: Vec<&String>)
        ensures
            r@.len() == self@.dom().len(),
            forall|i: int| 0 <= i < r@.len() ==> self@.dom().contains(#[trigger] r@[i]@),
            forall|k: Seq<char>| #[trigger] self@.dom().contains(k) ==> exists|i: int|
                0 <= i < r@.len() && r@[i]@ == k,
            forall|i: int, j: int| 0 <= i < j < r@.len() ==> #[trigger] r@[i]@ != #[trigger] r@[j]@,
    {
        self.templates.names()
    }
}

/// Looking a template up after `load_template` succeeded gives what the read
/// of its file returned; every other name gives what it gave before.
pub proof fn lemma_lookup_after_load<F: Fn(&str) -> Result<String, String>>(
    before: TemplateManager,
    after: TemplateManager,
    name: Seq<char>,
    path: &str,
    read_file: F,
)
    requires
        exists|c: String|
            #[trigger] call_ensures(read_file, (path,), Ok::<String, String>(c)) && after@
                == before@.insert(name, c@),
    ensures
        exists|c: String|
            #[trigger] call_ensures(read_file, (path,), Ok::<String, String>(c))
                && after@.dom().contains(name) && after@[name] == c@,
        forall|n: Seq<char>|
            n != name ==> (#[trigger] after@.dom().contains(n) == before@.dom().contains(n) && (
            before@.dom().contains(n) ==> after@[n] == before@[n])),
{
    let c = choose|c: String|
        #[trigger] call_ensures(read_file, (path,), Ok::<String, String>(c)) && after@ == before@.insert(
            name,
            c@,
        );
    assert(after@.dom().contains(name) && after@[name] == c@);
}

impl Default for TemplateManager {
    /// An empty template manager, as `new` makes.
    fn default() -> (r: TemplateManager)
        ensures
            r@ == Map::<Seq<char>, Seq<char>>::empty(),
    {
        TemplateManager::new()
    }
}

} // verus!
