//! The add-repository form of the terminal interface: which fields a method asks
//! for, the name a remote gets from its URL, the validation message, and what a
//! submit does.
use vstd::prelude::*;

use crate::cli::{name_from_url, name_from_url_spec};
use crate::error::error_message_spec;
use crate::manager::{repo_input_error, validate_repo_input};
use crate::package::{has_repo_id_spec, needs_name_spec, repository_views, RepoMethod, Repository, RepositoryView, SourceType};
use crate::text::{ascii_lower, ascii_lower_chars, chars_eq, chars_of, string_of};

verus! {

#[derive(Debug, Clone, Copy, PartialEq, Eq, Structural)]
pub enum FormField {
    RepoId,
    Name,
    Url,
    GpgCheck,
}

/// The fields a method asks for, in the order the form shows them.
pub open spec fn form_fields_spec(m: RepoMethod) -> Seq<FormField> {
    (if has_repo_id_spec(m) {
        seq![FormField::RepoId]
    } else {
        Seq::<FormField>::empty()
    }) + (if has_repo_id_spec(m) || needs_name_spec(m) {
        seq![FormField::Name]
    } else {
        Seq::<FormField>::empty()
    }) + seq![FormField::Url] + (if has_repo_id_spec(m) {
        seq![FormField::GpgCheck]
    } else {
        Seq::<FormField>::empty()
    })
}

/// The state of the add-repository form.
pub struct ReposAddForm {
    pub active: bool,
    pub step: u8,
    pub source: Option<SourceType>,
    pub method: Option<RepoMethod>,
    pub method_index: usize,
    pub repo_id: String,
    pub name: String,
    pub url: String,
    pub field: u8,
    pub gpgcheck: bool,
    pub validation_error: String,
}

/// The method of the form, a Flatpak remote where none is chosen.
pub open spec fn form_method(f: ReposAddForm) -> RepoMethod {
    match f.method {
        Some(m) => m,
        None => RepoMethod::RemoteAdd,
    }
}

/// The name a submit uses: the one typed, or for a method that needs a name and
/// has none, the one derived from the URL.
pub open spec fn form_name(f: ReposAddForm) -> Seq<char> {
    if f.name@.len() == 0 && needs_name_spec(form_method(f)) {
        name_from_url_spec(f.url@)
    } else {
        f.name@
    }
}

/// The message the form shows for its current input: empty where it is valid.
pub open spec fn form_message(f: ReposAddForm) -> Seq<char> {
    match repo_input_error(form_method(f), f.repo_id@, form_name(f), f.url@) {
        None => Seq::<char>::empty(),
        Some(msg) => "invalid input: "@ + msg,
    }
}

impl Default for ReposAddForm {
    fn default() -> (r: Self)
        ensures
            !r.active,
            r.step == 0,
            r.source is None,
            r.method is None,
            r.method_index == 0,
            r.repo_id@.len() == 0,
            r.name@.len() == 0,
            r.url@.len() == 0,
            r.field == 0,
            !r.gpgcheck,
            r.validation_error@.len() == 0,
    {
        ReposAddForm {
            active: false,
            step: 0,
            source: None,
            method: None,
            method_index: 0,
            repo_id: String::new(),
            name: String::new(),
            url: String::new(),
            field: 0,
            gpgcheck: false,
            validation_error: String::new(),
        }
    }
}

impl ReposAddForm {
    fn method_or_remote(&self) -> (r: RepoMethod)
        ensures
            r == form_method(*self),
    {
        match self.method {
            Some(m) => m,
            None => RepoMethod::RemoteAdd,
        }
    }

    /// The fields of the chosen method.
    pub fn fields(&self) -> (r: Vec<FormField>)
        ensures
            r@ == form_fields_spec(form_method(*self)),
    {
        let method = self.method_or_remote();
        let mut fields: Vec<FormField> = Vec::new();
        if method.has_repo_id() {
            fields.push(FormField::RepoId);
        }
        if method.has_display_name() || method.needs_name() {
            fields.push(FormField::Name);
        }
        fields.push(FormField::Url);
        if method.has_gpgcheck() {
            fields.push(FormField::GpgCheck);
        }
        proof {
            assert(fields@ =~= form_fields_spec(method));
        }
        fields
    }

    /// The field the cursor is on, if the index names one.
    pub fn active_field(&self) -> (r: Option<FormField>)
        ensures
            ({
                let fs = form_fields_spec(form_method(*self));
                if (self.field as int) < fs.len() {
                    r == Some(fs[self.field as int])
                } else {
                    r is None
                }
            }),
    {
        let fields = self.fields();
        let i = self.field as usize;
        if i < fields.len() {
            Some(fields[i])
        } else {
            None
        }
    }

    /// The text of a text field; the check box has none.
    pub fn field_text(&self, field: FormField) -> (r: Option<&str>)
        ensures
            match field {
                FormField::RepoId => r matches Some(t) && t@ == self.repo_id@,
                FormField::Name => r matches Some(t) && t@ == self.name@,
                FormField::Url => r matches Some(t) && t@ == self.url@,
                FormField::GpgCheck => r is None,
            },
    {
        match field {
            FormField::RepoId => Some(self.repo_id.as_str()),
            FormField::Name => Some(self.name.as_str()),
            FormField::Url => Some(self.url.as_str()),
            FormField::GpgCheck => None,
        }
    }

    fn submitted_name(&self) -> (r: String)
        ensures
            r@ == form_name(*self),
    {
        let method = self.method_or_remote();
        if self.name.as_str().is_empty() && method.needs_name() {
            name_from_url(self.url.as_str())
        } else {
            self.name.clone()
        }
    }

    /// Checks the input again and keeps the message of the first rule it breaks.
    pub fn revalidate(&mut self)
        ensures
            final(self).validation_error@ == form_message(*old(self)),
            final(self).active == old(self).active,
            final(self).step == old(self).step,
            final(self).source == old(self).source,
            final(self).method == old(self).method,
            final(self).method_index == old(self).method_index,
            final(self).repo_id == old(self).repo_id,
            final(self).name == old(self).name,
            final(self).url == old(self).url,
            final(self).field == old(self).field,
            final(self).gpgcheck == old(self).gpgcheck,
    {
        let method = self.method_or_remote();
        let name = self.submitted_name();
        let checked = validate_repo_input(
            method,
            self.repo_id.as_str(),
            name.as_str(),
            self.url.as_str(),
        );
        match checked {
            Ok(()) => {
                self.validation_error = String::new();
            },
            Err(e) => {
                proof {
                    assert(error_message_spec(e) == Some(form_message(*self)));
                }
                self.validation_error = e.message();
            },
        }
    }
}

/// What the form hands on when it is submitted.
pub struct AddRepoParams {
    pub method: RepoMethod,
    pub repo_id: String,
    pub name: String,
    pub url: String,
    pub source: SourceType,
    pub gpgcheck: bool,
}

/// Whether keys go to a text input or drive the interface.
#[derive(Debug, Clone, Copy, PartialEq, Eq, Structural)]
pub enum InputMode {
    Normal,
    Editing,
}

/// What the interface asks to be done.
pub enum Action {
    Quit,
    SearchSubmit(String),
    InstallPackage(String, Option<SourceType>),
    RemovePackage(String, Option<SourceType>),
    UpdatePackage(String, SourceType),
    UpdateAll(Vec<(String, SourceType)>),
    Autoremove,
    RefreshUpdates,
    RefreshInstalled,
    RefreshRepos,
    ToggleRepo(String, bool, SourceType),
    AddRepo(AddRepoParams),
    DeleteRepo(String, SourceType),
    OpenUrl(String),
    SaveSettings,
}

/// The outcome of a submit.
pub enum SubmitOutcome {
    /// No URL yet: the cursor moves to this field.
    FocusField(u8),
    /// A repository of the source already has that ID or URL.
    AlreadyExists,
    Add(AddRepoParams),
}

/// The index of the URL field among the method's fields.
pub open spec fn url_field_index(m: RepoMethod) -> int {
    if has_repo_id_spec(m) {
        2
    } else if needs_name_spec(m) {
        1
    } else {
        0
    }
}

proof fn lemma_url_field(m: RepoMethod)
    ensures
        0 <= url_field_index(m) < form_fields_spec(m).len(),
        form_fields_spec(m)[url_field_index(m)] == FormField::Url,
        forall|j: int| 0 <= j < url_field_index(m) ==> form_fields_spec(m)[j] != FormField::Url,
{
    match m {
        RepoMethod::RepoFile | RepoMethod::BaseUrl => {
            assert(form_fields_spec(m) =~= seq![
                FormField::RepoId,
                FormField::Name,
                FormField::Url,
                FormField::GpgCheck,
            ]);
        },
        RepoMethod::RemoteAdd => {
            assert(form_fields_spec(m) =~= seq![FormField::Name, FormField::Url]);
        },
        _ => {
            assert(form_fields_spec(m) =~= seq![FormField::Url]);
        },
    }
}

/// The ID a new repository is checked by: its repo ID, else its name.
pub open spec fn check_id_spec(f: ReposAddForm) -> Seq<char> {
    if f.repo_id@.len() > 0 {
        f.repo_id@
    } else {
        form_name(f)
    }
}

/// A listed repository of the same source with the same ID or the same URL, letters
/// compared without case.
pub open spec fn clashes(r: RepositoryView, source: SourceType, id: Seq<char>, url: Seq<char>) -> bool {
    r.source == source && ((id.len() > 0 && ascii_lower(r.id) == ascii_lower(id)) || (
    r.url matches Some(u) && ascii_lower(u) == ascii_lower(url)))
}

pub open spec fn any_clash(
    repos: Seq<RepositoryView>,
    source: SourceType,
    id: Seq<char>,
    url: Seq<char>,
) -> bool {
    exists|i: int| 0 <= i < repos.len() && #[trigger] clashes(repos[i], source, id, url)
}

fn same_ignoring_case(a: &[char], b: &[char]) -> (r: bool)
    ensures
        r == (ascii_lower(a@) == ascii_lower(b@)),
{
    let la = ascii_lower_chars(a);
    let lb = ascii_lower_chars(b);
    chars_eq(&la, &lb)
}

fn clashes_with(r: &Repository, source: SourceType, id: &[char], url: &[char]) -> (b: bool)
    ensures
        b == clashes(r@, source, id@, url@),
{
    if r.source != source {
        return false;
    }
    if id.len() > 0 {
        let rid = chars_of(r.id.as_str());
        if same_ignoring_case(&rid, id) {
            return true;
        }
    }
    match &r.url {
        Some(u) => {
            let uc = chars_of(u.as_str());
            same_ignoring_case(&uc, url)
        },
        None => false,
    }
}

/// What submitting the form does: ask for the URL where it is empty, refuse a
/// repository that is already listed, else hand on what was entered (the name
/// derived from the URL where the method needs one and none was typed).
pub fn submit_add_repo(form: &ReposAddForm, repos: &[Repository]) -> (r: SubmitOutcome)
    ensures
        ({
            let method = form_method(*form);
            let source = match form.source {
                Some(s) => s,
                None => SourceType::Flatpak,
            };
            if form.url@.len() == 0 {
                r == SubmitOutcome::FocusField(url_field_index(method) as u8)
            } else if any_clash(repository_views(repos@), source, check_id_spec(*form), form.url@) {
                r is AlreadyExists
            } else {
                r matches SubmitOutcome::Add(p) && p.method == method && p.source == source
                    && p.repo_id@ == form.repo_id@ && p.name@ == form_name(*form) && p.url@
                    == form.url@ && p.gpgcheck == form.gpgcheck
            }
        }),
{
    let source = match form.source {
        Some(s) => s,
        None => SourceType::Flatpak,
    };
    let method = form.method_or_remote();
    if form.url.as_str().is_empty() {
        let fields = form.fields();
        proof {
            lemma_url_field(method);
        }
        let mut i: usize = 0;
        while i < fields.len() && fields[i] != FormField::Url
            invariant
                fields@ == form_fields_spec(method),
                i <= fields.len(),
                forall|j: int| 0 <= j < i ==> fields@[j] != FormField::Url,
                i <= url_field_index(method),
                0 <= url_field_index(method) < fields@.len(),
                fields@[url_field_index(method)] == FormField::Url,
            decreases fields.len() - i,
        {
            i = i + 1;
        }
        proof {
            assert(i < fields.len());
            assert(i == url_field_index(method));
        }
        return SubmitOutcome::FocusField(i as u8);
    }
    let name = form.submitted_name();
    let repo_id = form.repo_id.clone();
    let check_id = if !repo_id.as_str().is_empty() {
        chars_of(repo_id.as_str())
    } else {
        chars_of(name.as_str())
    };
    let url = chars_of(form.url.as_str());
    let mut k: usize = 0;
    while k < repos.len()
        invariant
            k <= repos.len(),
            check_id@ == check_id_spec(*form),
            url@ == form.url@,
            form.url@.len() != 0,
            source == (match form.source {
                Some(s) => s,
                None => SourceType::Flatpak,
            }),
            forall|j: int| 0 <= j < k ==> !clashes(#[trigger] repository_views(repos@)[j], source, check_id@, url@),
        decreases repos.len() - k,
    {
        if clashes_with(&repos[k], source, &check_id, &url) {
            proof {
                assert(repository_views(repos@)[k as int] == repos@[k as int]@);
                assert(repository_views(repos@).len() == repos@.len());
                assert(clashes(repository_views(repos@)[k as int], source, check_id@, url@));
            }
            return SubmitOutcome::AlreadyExists;
        }
        k = k + 1;
    }
    SubmitOutcome::Add(
        AddRepoParams {
            method,
            repo_id,
            name,
            url: form.url.clone(),
            source,
            gpgcheck: form.gpgcheck,
        },
    )
}

// ---------------------------------------------------------------------------
// Keys in the form.
// ---------------------------------------------------------------------------

/// The keys the form reacts to.
#[derive(Debug, Clone, Copy, PartialEq, Eq, Structural)]
pub enum FormKey {
    Char(char),
    Backspace,
    Enter,
    Esc,
    Tab,
    BackTab,
    Up,
    Down,
    Other,
}

/// What a key in the form leads to beyond the form itself.
pub enum FormKeyOutcome {
    /// Nothing more.
    Stay,
    /// The form was left: back to normal input.
    LeaveEditing,
    /// The repository is already listed: the form closes with a message.
    AlreadyExists,
    /// The repository is to be added: the form closes.
    Add(AddRepoParams),
}

/// The parts of the form that editing text leaves alone.
pub open spec fn same_frame(a: ReposAddForm, b: ReposAddForm) -> bool {
    &&& a.active == b.active
    &&& a.step == b.step
    &&& a.source == b.source
    &&& a.method == b.method
    &&& a.method_index == b.method_index
    &&& a.field == b.field
    &&& a.gpgcheck == b.gpgcheck
}

/// `new` is `old` with the text of `field` set to `text` and the message checked
/// again.
pub open spec fn text_edited(old: ReposAddForm, new: ReposAddForm, field: FormField, text: Seq<char>) -> bool {
    &&& same_frame(old, new)
    &&& new.repo_id@ == (if field == FormField::RepoId {
        text
    } else {
        old.repo_id@
    })
    &&& new.name@ == (if field == FormField::Name {
        text
    } else {
        old.name@
    })
    &&& new.url@ == (if field == FormField::Url {
        text
    } else {
        old.url@
    })
    &&& new.validation_error@ == form_message(new)
}

pub open spec fn field_text_spec(f: ReposAddForm, field: FormField) -> Seq<char> {
    match field {
        FormField::RepoId => f.repo_id@,
        FormField::Name => f.name@,
        _ => f.url@,
    }
}

/// The field the cursor is on.
pub open spec fn active_field_spec(f: ReposAddForm) -> Option<FormField> {
    let fs = form_fields_spec(form_method(f));
    if (f.field as int) < fs.len() {
        Some(fs[f.field as int])
    } else {
        None
    }
}

/// What a key does to the form (`old` becoming `new`) and what it leads to.
pub open spec fn form_key_applied(
    old: ReposAddForm,
    new: ReposAddForm,
    key: FormKey,
    repos: Seq<RepositoryView>,
    r: FormKeyOutcome,
) -> bool {
    let count = form_fields_spec(form_method(old)).len();
    let active = active_field_spec(old);
    match key {
        FormKey::Esc => {
            &&& r is LeaveEditing
            &&& new.step == 0 && new.repo_id@.len() == 0 && new.name@.len() == 0 && new.url@.len()
                == 0 && new.gpgcheck
            &&& new.active == old.active && new.source == old.source && new.method == old.method
            &&& new.method_index == old.method_index && new.field == old.field
            &&& new.validation_error == old.validation_error
        },
        FormKey::Tab | FormKey::Down | FormKey::BackTab | FormKey::Up => {
            &&& r is Stay
            &&& new == (ReposAddForm {
                field: if count > 1 {
                    (if key == FormKey::Tab || key == FormKey::Down {
                        (old.field + 1) % (count as int)
                    } else {
                        (old.field + count - 1) % (count as int)
                    }) as u8
                } else {
                    old.field
                },
                ..old
            })
        },
        FormKey::Enter => if old.validation_error@.len() > 0 {
            r is Stay && new == old
        } else {
            let source = match old.source {
                Some(s) => s,
                None => SourceType::Flatpak,
            };
            if old.url@.len() == 0 {
                r is Stay && new == (ReposAddForm {
                    field: url_field_index(form_method(old)) as u8,
                    ..old
                })
            } else if any_clash(repos, source, check_id_spec(old), old.url@) {
                r is AlreadyExists && new == (ReposAddForm { active: false, ..old })
            } else {
                &&& new == (ReposAddForm { active: false, ..old })
                &&& r matches FormKeyOutcome::Add(p) && p.method == form_method(old) && p.source
                    == source && p.repo_id@ == old.repo_id@ && p.name@ == form_name(old) && p.url@
                    == old.url@ && p.gpgcheck == old.gpgcheck
            }
        },
        FormKey::Char(c) => if c == 'e' && active == Some(FormField::GpgCheck) {
            r is Stay && new == (ReposAddForm { gpgcheck: !old.gpgcheck, ..old })
        } else {
            match active {
                Some(field) => if field == FormField::GpgCheck {
                    r is Stay && new == old
                } else {
                    r is Stay && text_edited(old, new, field, field_text_spec(old, field).push(c))
                },
                None => r is Stay && new == old,
            }
        },
        FormKey::Backspace => match active {
            Some(field) => if field == FormField::GpgCheck {
                r is Stay && new == old
            } else {
                let t = field_text_spec(old, field);
                r is Stay && text_edited(
                    old,
                    new,
                    field,
                    if t.len() > 0 {
                        t.drop_last()
                    } else {
                        t
                    },
                )
            },
            None => r is Stay && new == old,
        },
        FormKey::Other => r is Stay && new == old,
    }
}

impl ReposAddForm {
    fn set_field_text(&mut self, field: FormField, text: Vec<char>)
        requires
            field != FormField::GpgCheck,
        ensures
            text_edited(*old(self), *final(self), field, text@),
    {
        let t = string_of(&text);
        match field {
            FormField::RepoId => self.repo_id = t,
            FormField::Name => self.name = t,
            _ => self.url = t,
        }
        self.revalidate();
    }

    /// Handles a key while the form is being filled in: Esc leaves it and clears it,
    /// Tab and the arrows move between the fields, `e` on the check box switches it,
    /// Enter submits where the input is valid, and other characters and Backspace edit
    /// the field under the cursor.
    pub fn handle_key(&mut self, key: FormKey, repos: &[Repository]) -> (r: FormKeyOutcome)
        ensures
            form_key_applied(*old(self), *final(self), key, repository_views(repos@), r),
    {
        let count = self.fields().len();
        let active = self.active_field();
        match key {
            FormKey::Esc => {
                self.step = 0;
                self.repo_id = String::new();
                self.name = String::new();
                self.url = String::new();
                self.gpgcheck = true;
                FormKeyOutcome::LeaveEditing
            },
            FormKey::Tab | FormKey::Down | FormKey::BackTab | FormKey::Up => {
                if count > 1 {
                    let field = self.field as usize;
                    let forward = key == FormKey::Tab || key == FormKey::Down;
                    self.field = if forward {
                        ((field + 1) % count) as u8
                    } else {
                        ((field + count - 1) % count) as u8
                    };
                }
                FormKeyOutcome::Stay
            },
            FormKey::Enter => {
                if !self.validation_error.as_str().is_empty() {
                    return FormKeyOutcome::Stay;
                }
                match submit_add_repo(self, repos) {
                    SubmitOutcome::FocusField(i) => {
                        self.field = i;
                        FormKeyOutcome::Stay
                    },
                    SubmitOutcome::AlreadyExists => {
                        self.active = false;
                        FormKeyOutcome::AlreadyExists
                    },
                    SubmitOutcome::Add(p) => {
                        self.active = false;
                        FormKeyOutcome::Add(p)
                    },
                }
            },
            FormKey::Char(c) => {
                if c == 'e' && active == Some(FormField::GpgCheck) {
                    self.gpgcheck = !self.gpgcheck;
                    return FormKeyOutcome::Stay;
                }
                match active {
                    Some(field) => {
                        if field == FormField::GpgCheck {
                            return FormKeyOutcome::Stay;
                        }
                        let mut t = match field {
                            FormField::RepoId => chars_of(self.repo_id.as_str()),
                            FormField::Name => chars_of(self.name.as_str()),
                            _ => chars_of(self.url.as_str()),
                        };
                        t.push(c);
                        self.set_field_text(field, t);
                        FormKeyOutcome::Stay
                    },
                    None => FormKeyOutcome::Stay,
                }
            },
            FormKey::Backspace => {
                match active {
                    Some(field) => {
                        if field == FormField::GpgCheck {
                            return FormKeyOutcome::Stay;
                        }
                        let mut t = match field {
                            FormField::RepoId => chars_of(self.repo_id.as_str()),
                            FormField::Name => chars_of(self.name.as_str()),
                            _ => chars_of(self.url.as_str()),
                        };
                        if t.len() > 0 {
                            t.pop();
                        }
                        self.set_field_text(field, t);
                        FormKeyOutcome::Stay
                    },
                    None => FormKeyOutcome::Stay,
                }
            },
            FormKey::Other => FormKeyOutcome::Stay,
        }
    }
}

fn find_entry(entries: &[(SourceType, RepoMethod)], st: SourceType, m: RepoMethod) -> (r: usize)
    ensures
        entries@.contains((st, m)) ==> (r as int) < entries@.len() && entries@[r as int] == (st, m)
            && forall|j: int| 0 <= j < r ==> entries@[j] != (st, m),
        !entries@.contains((st, m)) ==> r == 0,
{
    let mut i: usize = 0;
    while i < entries.len()
        invariant
            i <= entries.len(),
            forall|j: int| 0 <= j < i ==> entries@[j] != (st, m),
        decreases entries.len() - i,
    {
        if entries[i].0 == st && entries[i].1 == m {
            proof {
                assert(entries@[i as int] == (st, m));
            }
            return i;
        }
        i = i + 1;
    }
    0
}

/// The name the form shows again: none where it is the one derived from the URL.
pub open spec fn reopened_name(name: Seq<char>, url: Seq<char>) -> Seq<char> {
    if name == name_from_url_spec(url) {
        Seq::<char>::empty()
    } else {
        name
    }
}

impl ReposAddForm {
    /// The form as it was before a submit that was then cancelled: open at the field
    /// step with what was entered, a name derived from the URL dropped again, and
    /// the message checked again.
    pub fn reopened(params: AddRepoParams, entries: &[(SourceType, RepoMethod)]) -> (r: Self)
        ensures
            r.active && r.step == 2 && r.field == 0,
            r.source == Some(params.source),
            r.method == Some(params.method),
            entries@.contains((params.source, params.method)) ==> (r.method_index as int)
                < entries@.len() && entries@[r.method_index as int] == (params.source, params.method)
                && forall|j: int| 0 <= j < r.method_index ==> entries@[j] != (params.source, params.method),
            !entries@.contains((params.source, params.method)) ==> r.method_index == 0,
            r.repo_id@ == params.repo_id@,
            r.name@ == reopened_name(params.name@, params.url@),
            r.url@ == params.url@,
            r.gpgcheck == params.gpgcheck,
            r.validation_error@ == form_message(r),
    {
        let method_index = find_entry(entries, params.source, params.method);
        let derived = name_from_url(params.url.as_str());
        let same = chars_eq(&chars_of(params.name.as_str()), &chars_of(derived.as_str()));
        let name = if same {
            String::new()
        } else {
            params.name
        };
        let mut form = ReposAddForm {
            active: true,
            step: 2,
            source: Some(params.source),
            method: Some(params.method),
            method_index,
            repo_id: params.repo_id,
            name,
            url: params.url,
            field: 0,
            gpgcheck: params.gpgcheck,
            validation_error: String::new(),
        };
        form.revalidate();
        form
    }
}

/// Cancelling a submitted form gives back what was typed: the same repo ID, URL,
/// check-box state, source and method, and the same name, but for one typed that
/// equals the name the URL gives, which comes back empty as if derived.
pub proof fn lemma_reopen_restores(f: ReposAddForm)
    requires
        f.url@.len() > 0,
    ensures
        reopened_name(form_name(f), f.url@) == (if f.name@ == name_from_url_spec(f.url@) {
            Seq::<char>::empty()
        } else {
            f.name@
        }),
{
}

// ---------------------------------------------------------------------------
// Opening the form and choosing the method.
// ---------------------------------------------------------------------------

/// What a key in the method picker leads to.
#[derive(Debug, Clone, Copy, PartialEq, Eq, Structural)]
pub enum PickerOutcome {
    Stay,
    /// A method was chosen: the fields are filled in next.
    StartEditing,
    /// The form was closed.
    Closed,
}

impl ReposAddForm {
    /// Takes the source and method of the picker entry under the cursor.
    pub fn apply_picker_selection(&mut self, entries: &[(SourceType, RepoMethod)])
        requires
            (old(self).method_index as int) < entries@.len(),
        ensures
            final(self).source == Some(entries@[old(self).method_index as int].0),
            final(self).method == Some(entries@[old(self).method_index as int].1),
            *final(self) == (ReposAddForm {
                source: final(self).source,
                method: final(self).method,
                ..*old(self)
            }),
    {
        let (source, method) = entries[self.method_index];
        self.source = Some(source);
        self.method = Some(method);
    }

    /// A new form: open, with the check box on and the first entry chosen; with a
    /// single entry there is nothing to pick and the fields come next (the second
    /// result says so).
    pub fn open(entries: &[(SourceType, RepoMethod)]) -> (r: (Self, bool))
        requires
            entries@.len() > 0,
        ensures
            r.0.active && r.0.gpgcheck && r.0.method_index == 0 && r.0.field == 0,
            r.0.source == Some(entries@[0].0) && r.0.method == Some(entries@[0].1),
            r.0.step == (if entries@.len() == 1 {
                2u8
            } else {
                0u8
            }),
            r.1 == (entries@.len() == 1),
            r.0.repo_id@.len() == 0 && r.0.name@.len() == 0 && r.0.url@.len() == 0,
            r.0.validation_error@.len() == 0,
    {
        let mut form = ReposAddForm::default();
        form.active = true;
        form.gpgcheck = true;
        let (source, method) = entries[0];
        form.source = Some(source);
        form.method = Some(method);
        if entries.len() == 1 {
            form.step = 2;
            form.field = 0;
            (form, true)
        } else {
            form.method_index = 0;
            (form, false)
        }
    }

    /// Handles a key while the method is being picked: down and up move through the
    /// entries (round again at the ends), `e` takes the entry and goes on to the
    /// fields, Esc or `q` closes the form.
    pub fn handle_picker_key(&mut self, key: FormKey, entries: &[(SourceType, RepoMethod)]) -> (r:
        PickerOutcome)
        requires
            (old(self).method_index as int) < entries@.len(),
        ensures
            (final(self).method_index as int) < entries@.len(),
            ({
                let n = entries@.len() as int;
                let i = old(self).method_index as int;
                match key {
                    FormKey::Char('j') | FormKey::Down => {
                        &&& r == PickerOutcome::Stay
                        &&& final(self).method_index == (i + 1) % n
                        &&& final(self).source == Some(entries@[(i + 1) % n].0)
                        &&& final(self).method == Some(entries@[(i + 1) % n].1)
                        &&& final(self).step == old(self).step && final(self).field == old(self).field
                        &&& final(self).active == old(self).active
                    },
                    FormKey::Char('k') | FormKey::Up => {
                        let j = if i == 0 {
                            n - 1
                        } else {
                            i - 1
                        };
                        &&& r == PickerOutcome::Stay
                        &&& final(self).method_index == j
                        &&& final(self).source == Some(entries@[j].0)
                        &&& final(self).method == Some(entries@[j].1)
                        &&& final(self).step == old(self).step && final(self).field == old(self).field
                        &&& final(self).active == old(self).active
                    },
                    FormKey::Char('e') => {
                        &&& r == PickerOutcome::StartEditing
                        &&& final(self).method_index == i
                        &&& final(self).source == Some(entries@[i].0)
                        &&& final(self).method == Some(entries@[i].1)
                        &&& final(self).step == 2 && final(self).field == 0
                        &&& final(self).active == old(self).active
                    },
                    FormKey::Esc | FormKey::Char('q') => {
                        &&& r == PickerOutcome::Closed
                        &&& *final(self) == (ReposAddForm { active: false, ..*old(self) })
                    },
                    _ => r == PickerOutcome::Stay && *final(self) == *old(self),
                }
            }),
    {
        let n = entries.len();
        match key {
            FormKey::Char('j') | FormKey::Down => {
                self.method_index = (self.method_index + 1) % n;
                self.apply_picker_selection(entries);
                PickerOutcome::Stay
            },
            FormKey::Char('k') | FormKey::Up => {
                self.method_index = if self.method_index == 0 {
                    n - 1
                } else {
                    self.method_index - 1
                };
                self.apply_picker_selection(entries);
                PickerOutcome::Stay
            },
            FormKey::Char('e') => {
                self.apply_picker_selection(entries);
                self.step = 2;
                self.field = 0;
                PickerOutcome::StartEditing
            },
            FormKey::Esc | FormKey::Char('q') => {
                self.active = false;
                PickerOutcome::Closed
            },
            _ => PickerOutcome::Stay,
        }
    }
}

} // verus!
