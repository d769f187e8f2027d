//! Custom templates: how a template is created, changed, submitted and
//! moderated, which templates a listing shows, and which data fits a
//! template.
//!
//! The records are plain data and stand for themselves in the contracts;
//! where a text is searched or measured, it is taken as its bytes.

use vstd::prelude::*;
use crate::identity::Identity;
use crate::text::{
    append_decimal, begins_with, bytes_of, contains_byte, contains_bytes, decimal, is_i64_text,
    occurs_in, parses_as_i64, starts_with_bytes,
};

verus! {

/// Where a template stands.
#[derive(Clone, Copy, Debug, PartialEq, Eq, Structural)]
pub enum TemplateStatus {
    /// Being written; only a draft can be changed or submitted.
    Draft,
    /// Submitted, and waiting to be moderated.
    Pending,
    /// Approved by a moderator; only approved templates are listed in public.
    Approved,
    /// Rejected by a moderator.
    Rejected,
}

impl TemplateStatus {
    /// The status in words.
    pub fn name(&self) -> (text: String)
        ensures
            text@ == match *self {
                TemplateStatus::Draft => "draft"@,
                TemplateStatus::Pending => "pending"@,
                TemplateStatus::Approved => "approved"@,
                TemplateStatus::Rejected => "rejected"@,
            },
    {
        match self {
            TemplateStatus::Draft => "draft".to_owned(),
            TemplateStatus::Pending => "pending".to_owned(),
            TemplateStatus::Approved => "approved".to_owned(),
            TemplateStatus::Rejected => "rejected".to_owned(),
        }
    }

    /// The status that `text` names, if it names one.
    pub fn named(text: &String) -> (status: Option<TemplateStatus>)
        ensures
            status == if text@ == "draft"@ {
                Some(TemplateStatus::Draft)
            } else if text@ == "pending"@ {
                Some(TemplateStatus::Pending)
            } else if text@ == "approved"@ {
                Some(TemplateStatus::Approved)
            } else if text@ == "rejected"@ {
                Some(TemplateStatus::Rejected)
            } else {
                None
            },
    {
        if *text == "draft".to_owned() {
            Some(TemplateStatus::Draft)
        } else if *text == "pending".to_owned() {
            Some(TemplateStatus::Pending)
        } else if *text == "approved".to_owned() {
            Some(TemplateStatus::Approved)
        } else if *text == "rejected".to_owned() {
            Some(TemplateStatus::Rejected)
        } else {
            None
        }
    }
}

/// Why a call on a template was rejected.
#[derive(Clone, Copy, Debug, PartialEq, Eq, Structural)]
pub enum TemplateError {
    /// The templates are counted already.
    AlreadyInitialized,
    /// The caller did not create the template.
    Unauthorized,
    /// The template is no draft.
    NotDraft,
    /// The template is not waiting to be moderated.
    NotPending,
    /// The template is not well-formed.
    ValidationFailed,
    /// The decision is neither `approve` nor `reject`.
    InvalidDecision,
}

/// A named parameter of a validation rule.
#[derive(Clone, Debug, PartialEq, Eq)]
pub struct Parameter {
    pub key: String,
    pub value: String,
}

/// A field of a template.
#[derive(Clone, Debug, PartialEq, Eq)]
pub struct TemplateField {
    /// The id of the field, unique in its template.
    pub id: String,
    pub name: String,
    /// The kind of value: `email`, `url`, `number`, or any other.
    pub field_type: String,
    pub label: String,
    pub description: Option<String>,
    /// Whether data must hold a value for the field, and not an empty one.
    pub required: bool,
    pub default_value: Option<String>,
    pub placeholder: Option<String>,
    pub options: Option<Vec<String>>,
    /// The least length of a value, in bytes.
    pub min_length: Option<u32>,
    /// The greatest length of a value, in bytes.
    pub max_length: Option<u32>,
    pub min_value: Option<i64>,
    pub max_value: Option<i64>,
    /// Text that a value must contain.
    pub pattern: Option<String>,
    pub help_text: Option<String>,
    pub order: u32,
    pub visible: bool,
    pub editable: bool,
}

/// A validation rule of a template.
#[derive(Clone, Debug, PartialEq, Eq)]
pub struct ValidationRule {
    pub id: String,
    pub name: String,
    pub description: Option<String>,
    /// The field that the rule is about.
    pub field_id: String,
    pub rule_type: String,
    pub parameters: Option<Vec<Parameter>>,
    pub error_message: String,
    pub severity: String,
    pub enabled: bool,
}

/// The place of a field in a section.
#[derive(Clone, Debug, PartialEq, Eq)]
pub struct SectionField {
    pub field_id: String,
    pub width: String,
}

/// A section of a layout.
#[derive(Clone, Debug, PartialEq, Eq)]
pub struct TemplateSection {
    pub id: String,
    pub title: Option<String>,
    pub description: Option<String>,
    pub fields: Vec<SectionField>,
    pub order: u32,
}

/// The colors of a layout.
#[derive(Clone, Debug, PartialEq, Eq)]
pub struct TemplateTheme {
    pub primary_color: String,
    pub secondary_color: String,
    pub background_color: String,
    pub text_color: String,
}

/// How a template is laid out.
#[derive(Clone, Debug, PartialEq, Eq)]
pub struct TemplateLayout {
    pub sections: Vec<TemplateSection>,
    pub theme: TemplateTheme,
}

/// A template.
#[derive(Clone, Debug, PartialEq, Eq)]
pub struct CustomTemplate {
    /// The id of the template: `tpl_` and its number, counted from 0.
    pub id: String,
    pub name: String,
    pub description: String,
    pub version: String,
    pub category: String,
    pub fields: Vec<TemplateField>,
    pub validation_rules: Vec<ValidationRule>,
    pub layout: TemplateLayout,
    pub template_schema: Vec<u8>,
    pub sample_data: Option<Vec<u8>>,
    /// The party that created the template, and alone may change it.
    pub created_by: Identity,
    pub organization_id: Option<String>,
    pub is_public: bool,
    pub tags: Vec<String>,
    pub price: i128,
    pub usage_count: u64,
    /// Where the template stands.
    pub status: TemplateStatus,
    pub created_at: u64,
    pub updated_at: u64,
    pub requires_encryption: bool,
    pub privacy_level: String,
}

/// What a listing shows of a template.
#[derive(Clone, Debug, PartialEq, Eq)]
pub struct TemplateMetadata {
    pub id: String,
    pub name: String,
    pub description: String,
    pub category: String,
    pub created_by: Identity,
    pub is_public: bool,
    pub price: i128,
    pub usage_count: u64,
    pub rating_average: Option<i64>,
    pub rating_count: u64,
    pub status: TemplateStatus,
    pub created_at: u64,
    pub tags: Vec<String>,
}

/// A value given for a field of a template.
#[derive(Clone, Debug, PartialEq, Eq)]
pub struct DataValue {
    /// The id of the field.
    pub key: String,
    pub value: String,
}

/// What may change of a template; what is `None` stays as it is.
#[derive(Clone, Debug, PartialEq, Eq)]
pub struct TemplateChanges {
    pub name: Option<String>,
    pub description: Option<String>,
    pub category: Option<String>,
    pub fields: Option<Vec<TemplateField>>,
    pub validation_rules: Option<Vec<ValidationRule>>,
    pub layout: Option<TemplateLayout>,
    pub template_schema: Option<Vec<u8>>,
    pub sample_data: Option<Vec<u8>>,
    pub is_public: Option<bool>,
    pub tags: Option<Vec<String>>,
    pub price: Option<i128>,
    pub requires_encryption: Option<bool>,
    pub privacy_level: Option<String>,
}

/// Which templates a listing is to show; what is `None` does not restrict it.
#[derive(Clone, Debug, PartialEq, Eq)]
pub struct TemplateFilter {
    pub category: Option<String>,
    pub is_public: Option<bool>,
    /// Tags of which a template must have at least one.
    pub tags: Option<Vec<String>>,
    /// The most templates to show; 50 if `None`, and never more than 100.
    pub limit: Option<u32>,
}

/// The most templates that a listing shows when no limit is asked for.
pub const DEFAULT_LIMIT: u32 = 50;

/// The most templates that a listing ever shows.
pub const MAX_LIMIT: u32 = 100;

/// The views of the texts in a vector, in order.
pub open spec fn text_models(texts: Seq<String>) -> Seq<Seq<char>> {
    texts.map_values(|t: String| t@)
}

/// The ids of the fields, in order.
pub open spec fn field_ids(fields: Seq<TemplateField>) -> Seq<Seq<char>> {
    fields.map_values(|f: TemplateField| f.id@)
}

/// The id of the template number `count`: `tpl_` and the number in decimal.
pub open spec fn template_id(count: nat) -> Seq<char> {
    "tpl_"@ + decimal(count)
}

/// What `or` is replaced with if `change` is given.
pub open spec fn changed<T>(change: Option<T>, or: T) -> T {
    match change {
        Some(value) => value,
        None => or,
    }
}

/// The template after `changes` at `now`: what is given replaces what was
/// there, and the template is a draft, changed at `now`.
pub open spec fn with_changes(template: CustomTemplate, changes: TemplateChanges, now: u64)
    -> CustomTemplate {
    CustomTemplate {
        name: changed(changes.name, template.name),
        description: changed(changes.description, template.description),
        category: changed(changes.category, template.category),
        fields: changed(changes.fields, template.fields),
        validation_rules: changed(changes.validation_rules, template.validation_rules),
        layout: changed(changes.layout, template.layout),
        template_schema: changed(changes.template_schema, template.template_schema),
        sample_data: match changes.sample_data {
            Some(data) => Some(data),
            None => template.sample_data,
        },
        is_public: changed(changes.is_public, template.is_public),
        tags: changed(changes.tags, template.tags),
        price: changed(changes.price, template.price),
        requires_encryption: changed(changes.requires_encryption, template.requires_encryption),
        privacy_level: changed(changes.privacy_level, template.privacy_level),
        updated_at: now,
        status: TemplateStatus::Draft,
        ..template
    }
}

/// Whether the template is well-formed: it has a name and a description,
/// no two of its fields have the same id, and each of its validation rules
/// is about one of its fields.
pub open spec fn well_formed(template: CustomTemplate) -> bool {
    &&& bytes_of(template.name@).len() > 0
    &&& bytes_of(template.description@).len() > 0
    &&& field_ids(template.fields@).no_duplicates()
    &&& forall|r: int|
        0 <= r < template.validation_rules.len() ==> field_ids(template.fields@).contains(
            (#[trigger] template.validation_rules[r]).field_id@,
        )
}

/// Whether the text is an e-mail address, as far as is checked: whether it
/// holds an `@` and a `.`.
pub open spec fn is_email(text: Seq<u8>) -> bool {
    text.contains(0x40u8) && text.contains(0x2eu8)
}

/// The bytes of `http://`.
pub open spec fn http_prefix() -> Seq<u8> {
    seq![0x68u8, 0x74u8, 0x74u8, 0x70u8, 0x3au8, 0x2fu8, 0x2fu8]
}

/// The bytes of `https://`.
pub open spec fn https_prefix() -> Seq<u8> {
    seq![0x68u8, 0x74u8, 0x74u8, 0x70u8, 0x73u8, 0x3au8, 0x2fu8, 0x2fu8]
}

/// Whether the text is a web address: whether it begins with `http://` or
/// with `https://`.
pub open spec fn is_url(text: Seq<u8>) -> bool {
    begins_with(text, http_prefix()) || begins_with(text, https_prefix())
}

/// Whether `value` fits `field`: an `email` must be an e-mail address, a
/// `url` a web address, a `number` a whole number of 64 bits in decimal;
/// the value must be within the lengths that the field sets, and hold the
/// pattern that it sets.
pub open spec fn value_fits(field: TemplateField, value: Seq<u8>) -> bool {
    &&& field.field_type@ == "email"@ ==> is_email(value)
    &&& field.field_type@ == "url"@ ==> is_url(value)
    &&& field.field_type@ == "number"@ ==> is_i64_text(value)
    &&& field.min_length matches Some(least) ==> value.len() >= least
    &&& field.max_length matches Some(most) ==> value.len() <= most
    &&& field.pattern matches Some(pattern) ==> occurs_in(value, bytes_of(pattern@))
}

/// The first value that `data` gives under `key`, if it gives one.
pub open spec fn value_of(data: Seq<DataValue>, key: Seq<char>) -> Option<Seq<u8>>
    decreases data.len(),
{
    if data.len() == 0 {
        None
    } else if data.first().key@ == key {
        Some(bytes_of(data.first().value@))
    } else {
        value_of(data.drop_first(), key)
    }
}

/// Whether `data` fits `field`: a required field must have a value, and
/// not an empty one; the value that a field has must fit it.
pub open spec fn field_satisfied(field: TemplateField, data: Seq<DataValue>) -> bool {
    match value_of(data, field.id@) {
        Some(value) => (field.required ==> value.len() > 0) && value_fits(field, value),
        None => !field.required,
    }
}

/// Whether `data` fits the template: whether it fits every field.
pub open spec fn data_fits(template: CustomTemplate, data: Seq<DataValue>) -> bool {
    forall|i: int|
        0 <= i < template.fields.len() ==> field_satisfied(#[trigger] template.fields[i], data)
}

/// Whether a listing under `filter` shows the template: its category and
/// its publicity must be those asked for, it must have one of the tags
/// asked for, and unless templates that are not public are asked for, it
/// must be approved.
pub open spec fn listed(template: CustomTemplate, filter: TemplateFilter) -> bool {
    &&& filter.category matches Some(category) ==> template.category@ == category@
    &&& filter.is_public matches Some(public) ==> template.is_public == public
    &&& filter.tags matches Some(tags) ==> exists|i: int|
        0 <= i < tags.len() && text_models(template.tags@).contains((#[trigger] tags[i])@)
    &&& filter.is_public != Some(false) ==> template.status == TemplateStatus::Approved
}

/// The templates among `templates` that a listing under `filter` shows,
/// without regard to its limit, in order.
pub open spec fn all_listed(templates: Seq<CustomTemplate>, filter: TemplateFilter) -> Seq<
    CustomTemplate,
>
    decreases templates.len(),
{
    if templates.len() == 0 {
        Seq::empty()
    } else if listed(templates.last(), filter) {
        all_listed(templates.drop_last(), filter).push(templates.last())
    } else {
        all_listed(templates.drop_last(), filter)
    }
}

/// The most templates that a listing under `filter` shows.
pub open spec fn limit_of(filter: TemplateFilter) -> nat {
    match filter.limit {
        Some(limit) => if limit <= MAX_LIMIT {
            limit as nat
        } else {
            MAX_LIMIT as nat
        },
        None => DEFAULT_LIMIT as nat,
    }
}

/// Whether `shown` is what a listing shows of `template`.
pub open spec fn shows(shown: TemplateMetadata, template: CustomTemplate) -> bool {
    &&& shown.id == template.id
    &&& shown.name == template.name
    &&& shown.description == template.description
    &&& shown.category == template.category
    &&& shown.created_by == template.created_by
    &&& shown.is_public == template.is_public
    &&& shown.price == template.price
    &&& shown.usage_count == template.usage_count
    &&& shown.rating_average is None
    &&& shown.rating_count == 0
    &&& shown.status == template.status
    &&& shown.created_at == template.created_at
    &&& shown.tags@ == template.tags@
}

/// What is listed of the first templates is the beginning of what is
/// listed of all.
pub proof fn lemma_listed_prefix(templates: Seq<CustomTemplate>, filter: TemplateFilter, n: int)
    requires
        0 <= n <= templates.len(),
    ensures
        all_listed(templates.take(n), filter).len() <= all_listed(templates, filter).len(),
        all_listed(templates, filter).take(all_listed(templates.take(n), filter).len() as int)
            == all_listed(templates.take(n), filter),
    decreases templates.len() - n,
{
    if n == templates.len() {
        assert(templates.take(n) =~= templates);
        assert(all_listed(templates, filter).take(all_listed(templates, filter).len() as int)
            =~= all_listed(templates, filter));
    } else {
        lemma_listed_prefix(templates, filter, n + 1);
        assert(templates.take(n + 1).drop_last() =~= templates.take(n));
        let shorter = all_listed(templates.take(n), filter);
        let longer = all_listed(templates.take(n + 1), filter);
        let all = all_listed(templates, filter);
        assert(longer.take(shorter.len() as int) =~= shorter);
        assert(all.take(shorter.len() as int) =~= all.take(longer.len() as int).take(
            shorter.len() as int,
        ));
    }
}

/// Whether `text` is among `texts`.
fn is_listed_text(text: &String, texts: &Vec<String>) -> (found: bool)
    ensures
        found == text_models(texts@).contains(text@),
{
    let mut i: usize = 0;
    while i < texts.len()
        invariant
            i <= texts.len(),
            forall|j: int| 0 <= j < i ==> #[trigger] text_models(texts@)[j] != text@,
        decreases texts.len() - i,
    {
        if texts[i] == *text {
            proof {
                assert(text_models(texts@)[i as int] == text@);
            }
            return true;
        }
        i = i + 1;
    }
    false
}

/// The templates contract: the rules that templates are kept by.
pub struct CustomTemplateContract;

impl CustomTemplateContract {
    /// Starts the count of templates at zero.
    ///
    /// Fails with `AlreadyInitialized` if there is a count already.
    pub fn initialize(template_count: Option<u64>) -> (res: Result<u64, TemplateError>)
        ensures
            res == match template_count {
                Some(_) => Err::<u64, TemplateError>(TemplateError::AlreadyInitialized),
                None => Ok(0u64),
            },
    {
        match template_count {
            Some(_) => Err(TemplateError::AlreadyInitialized),
            None => Ok(0),
        }
    }

    /// The template that `creator` creates at `now` when `template_count`
    /// templates were created before: a draft in version `1.0.0`, not used
    /// yet, of no organization, with the id `tpl_` and its number.
    pub fn create_template(
        template_count: u64,
        creator: Identity,
        name: String,
        description: String,
        category: String,
        fields: Vec<TemplateField>,
        validation_rules: Vec<ValidationRule>,
        layout: TemplateLayout,
        template_schema: Vec<u8>,
        sample_data: Option<Vec<u8>>,
        is_public: bool,
        tags: Vec<String>,
        price: i128,
        requires_encryption: bool,
        privacy_level: String,
        now: u64,
    ) -> (template: CustomTemplate)
        ensures
            template.id@ == template_id(template_count as nat),
            template.version@ == "1.0.0"@,
            template == (CustomTemplate {
                id: template.id,
                name,
                description,
                version: template.version,
                category,
                fields,
                validation_rules,
                layout,
                template_schema,
                sample_data,
                created_by: creator,
                organization_id: None,
                is_public,
                tags,
                price,
                usage_count: 0,
                status: TemplateStatus::Draft,
                created_at: now,
                updated_at: now,
                requires_encryption,
                privacy_level,
            }),
    {
        let mut id = "tpl_".to_owned();
        append_decimal(&mut id, template_count);
        CustomTemplate {
            id,
            name,
            description,
            version: "1.0.0".to_owned(),
            category,
            fields,
            validation_rules,
            layout,
            template_schema,
            sample_data,
            created_by: creator,
            organization_id: None,
            is_public,
            tags,
            price,
            usage_count: 0,
            status: TemplateStatus::Draft,
            created_at: now,
            updated_at: now,
            requires_encryption,
            privacy_level,
        }
    }

    /// The template with `changes`, made by `caller` at `now`.
    ///
    /// Fails with `Unauthorized` unless `caller` created the template, else
    /// with `NotDraft` unless the template is a draft.
    pub fn update_template(
        template: CustomTemplate,
        caller: &Identity,
        changes: TemplateChanges,
        now: u64,
    ) -> (res: Result<CustomTemplate, TemplateError>)
        ensures
            res == if template.created_by@ != caller@ {
                Err::<CustomTemplate, TemplateError>(TemplateError::Unauthorized)
            } else if template.status != TemplateStatus::Draft {
                Err(TemplateError::NotDraft)
            } else {
                Ok(with_changes(template, changes, now))
            },
    {
        if !template.created_by.same_as(caller) {
            return Err(TemplateError::Unauthorized);
        }
        match template.status {
            TemplateStatus::Draft => {},
            _ => {
                return Err(TemplateError::NotDraft);
            },
        }
        let mut template = template;
        match changes.name {
            Some(name) => {
                template.name = name;
            },
            None => {},
        }
        match changes.description {
            Some(description) => {
                template.description = description;
            },
            None => {},
        }
        match changes.category {
            Some(category) => {
                template.category = category;
            },
            None => {},
        }
        match changes.fields {
            Some(fields) => {
                template.fields = fields;
            },
            None => {},
        }
        match changes.validation_rules {
            Some(validation_rules) => {
                template.validation_rules = validation_rules;
            },
            None => {},
        }
        match changes.layout {
            Some(layout) => {
                template.layout = layout;
            },
            None => {},
        }
        match changes.template_schema {
            Some(template_schema) => {
                template.template_schema = template_schema;
            },
            None => {},
        }
        match changes.sample_data {
            Some(sample_data) => {
                template.sample_data = Some(sample_data);
            },
            None => {},
        }
        match changes.is_public {
            Some(is_public) => {
                template.is_public = is_public;
            },
            None => {},
        }
        match changes.tags {
            Some(tags) => {
                template.tags = tags;
            },
            None => {},
        }
        match changes.price {
            Some(price) => {
                template.price = price;
            },
            None => {},
        }
        match changes.requires_encryption {
            Some(requires_encryption) => {
                template.requires_encryption = requires_encryption;
            },
            None => {},
        }
        match changes.privacy_level {
            Some(privacy_level) => {
                template.privacy_level = privacy_level;
            },
            None => {},
        }
        template.updated_at = now;
        template.status = TemplateStatus::Draft;
        Ok(template)
    }

    /// The template once `caller` has submitted it for approval at `now`:
    /// pending.
    ///
    /// Fails with `Unauthorized` unless `caller` created the template, else
    /// with `NotDraft` unless the template is a draft, else with
    /// `ValidationFailed` unless the template is well-formed.
    pub fn submit_for_approval(template: CustomTemplate, caller: &Identity, now: u64) -> (res:
        Result<CustomTemplate, TemplateError>)
        ensures
            res == if template.created_by@ != caller@ {
                Err::<CustomTemplate, TemplateError>(TemplateError::Unauthorized)
            } else if template.status != TemplateStatus::Draft {
                Err(TemplateError::NotDraft)
            } else if !well_formed(template) {
                Err(TemplateError::ValidationFailed)
            } else {
                Ok(CustomTemplate { status: TemplateStatus::Pending, updated_at: now, ..template })
            },
    {
        if !template.created_by.same_as(caller) {
            return Err(TemplateError::Unauthorized);
        }
        match template.status {
            TemplateStatus::Draft => {},
            _ => {
                return Err(TemplateError::NotDraft);
            },
        }
        if !Self::validate_template_structure(&template) {
            return Err(TemplateError::ValidationFailed);
        }
        let mut template = template;
        template.status = TemplateStatus::Pending;
        template.updated_at = now;
        Ok(template)
    }

    /// The template once a moderator has decided on it at `now`: approved
    /// if the decision is `approve`, rejected if it is `reject`.
    ///
    /// Fails with `NotPending` unless the template is pending, else with
    /// `InvalidDecision` if the decision is neither.
    pub fn moderate_template(template: CustomTemplate, decision: &String, now: u64) -> (res:
        Result<CustomTemplate, TemplateError>)
        ensures
            res == if template.status != TemplateStatus::Pending {
                Err::<CustomTemplate, TemplateError>(TemplateError::NotPending)
            } else if decision@ == "approve"@ {
                Ok(CustomTemplate { status: TemplateStatus::Approved, updated_at: now, ..template })
            } else if decision@ == "reject"@ {
                Ok(CustomTemplate { status: TemplateStatus::Rejected, updated_at: now, ..template })
            } else {
                Err(TemplateError::InvalidDecision)
            },
    {
        match template.status {
            TemplateStatus::Pending => {},
            _ => {
                return Err(TemplateError::NotPending);
            },
        }
        let mut template = template;
        if *decision == "approve".to_owned() {
            template.status = TemplateStatus::Approved;
        } else if *decision == "reject".to_owned() {
            template.status = TemplateStatus::Rejected;
        } else {
            return Err(TemplateError::InvalidDecision);
        }
        template.updated_at = now;
        Ok(template)
    }

    /// Whether a listing under `filter` shows the template.
    pub fn is_listed(template: &CustomTemplate, filter: &TemplateFilter) -> (shown: bool)
        ensures
            shown == listed(*template, *filter),
    {
        match &filter.category {
            Some(category) => {
                if template.category != *category {
                    return false;
                }
            },
            None => {},
        }
        match filter.is_public {
            Some(public) => {
                if template.is_public != public {
                    return false;
                }
            },
            None => {},
        }
        match &filter.tags {
            Some(tags) => {
                let mut has_tag = false;
                let mut i: usize = 0;
                while i < tags.len() && !has_tag
                    invariant
                        i <= tags.len(),
                        has_tag == exists|j: int|
                            0 <= j < i && text_models(template.tags@).contains(
                                (#[trigger] tags[j])@,
                            ),
                    decreases tags.len() - i,
                {
                    if is_listed_text(&tags[i], &template.tags) {
                        has_tag = true;
                    }
                    i = i + 1;
                }
                if !has_tag {
                    return false;
                }
            },
            None => {},
        }
        let public_only = match filter.is_public {
            Some(public) => public,
            None => true,
        };
        if public_only {
            match template.status {
                TemplateStatus::Approved => {},
                _ => {
                    return false;
                },
            }
        }
        true
    }

    /// What a listing shows of the template.
    pub fn metadata(template: &CustomTemplate) -> (shown: TemplateMetadata)
        ensures
            shows(shown, *template),
    {
        let tags = template.tags.clone();
        proof {
            assert(tags@ =~= template.tags@);
        }
        TemplateMetadata {
            id: template.id.clone(),
            name: template.name.clone(),
            description: template.description.clone(),
            category: template.category.clone(),
            created_by: template.created_by.clone(),
            is_public: template.is_public,
            price: template.price,
            usage_count: template.usage_count,
            rating_average: None,
            rating_count: 0,
            status: template.status,
            created_at: template.created_at,
            tags,
        }
    }

    /// What a listing under `filter` shows of `templates`: the first of
    /// the templates that it shows, in order, as many as its limit allows.
    pub fn list_templates(templates: &Vec<CustomTemplate>, filter: &TemplateFilter) -> (shown:
        Vec<TemplateMetadata>)
        ensures
            shown.len() == if all_listed(templates@, *filter).len() <= limit_of(*filter) {
                all_listed(templates@, *filter).len()
            } else {
                limit_of(*filter)
            },
            forall|k: int|
                0 <= k < shown.len() ==> shows(
                    #[trigger] shown[k],
                    all_listed(templates@, *filter)[k],
                ),
    {
        let limit: u32 = match filter.limit {
            Some(limit) => if limit <= MAX_LIMIT {
                limit
            } else {
                MAX_LIMIT
            },
            None => DEFAULT_LIMIT,
        };
        let mut shown: Vec<TemplateMetadata> = Vec::new();
        let mut i: usize = 0;
        proof {
            assert(templates@.take(0) =~= Seq::empty());
        }
        while i < templates.len() && shown.len() < limit as usize
            invariant
                i <= templates.len(),
                limit == limit_of(*filter),
                shown.len() <= limit,
                shown.len() == all_listed(templates@.take(i as int), *filter).len(),
                forall|k: int|
                    0 <= k < shown.len() ==> shows(
                        #[trigger] shown[k],
                        all_listed(templates@.take(i as int), *filter)[k],
                    ),
            decreases templates.len() - i,
        {
            proof {
                assert(templates@.take(i + 1).drop_last() =~= templates@.take(i as int));
                assert(templates@.take(i + 1).last() == templates@[i as int]);
            }
            if Self::is_listed(&templates[i], filter) {
                let entry = Self::metadata(&templates[i]);
                shown.push(entry);
            }
            i = i + 1;
        }
        proof {
            lemma_listed_prefix(templates@, *filter, i as int);
            let listed_so_far = all_listed(templates@.take(i as int), *filter);
            let all = all_listed(templates@, *filter);
            if i == templates.len() {
                assert(templates@.take(i as int) =~= templates@);
            }
            assert forall|k: int| 0 <= k < shown.len() implies shows(#[trigger] shown[k], all[k]) by {
                assert(all.take(listed_so_far.len() as int)[k] == all[k]);
            }
        }
        shown
    }

    /// Whether the template is well-formed: it has a name and a
    /// description, no two of its fields have the same id, and each of its
    /// validation rules is about one of its fields.
    pub fn validate_template_structure(template: &CustomTemplate) -> (valid: bool)
        ensures
            valid == well_formed(*template),
    {
        if Self::is_empty_text(&template.name) || Self::is_empty_text(&template.description) {
            return false;
        }
        let ghost ids = field_ids(template.fields@);
        let mut a: usize = 0;
        while a < template.fields.len()
            invariant
                a <= template.fields.len(),
                ids == field_ids(template.fields@),
                forall|x: int, y: int| 0 <= x < a && 0 <= y < ids.len() && x != y ==> ids[x]
                    != ids[y],
            decreases template.fields.len() - a,
        {
            let mut b: usize = a + 1;
            while b < template.fields.len()
                invariant
                    a < b <= template.fields.len(),
                    ids == field_ids(template.fields@),
                    forall|y: int| a < y < b ==> ids[a as int] != ids[y],
                decreases template.fields.len() - b,
            {
                if template.fields[a].id == template.fields[b].id {
                    proof {
                        assert(ids[a as int] == ids[b as int]);
                    }
                    return false;
                }
                b = b + 1;
            }
            a = a + 1;
        }
        let mut r: usize = 0;
        while r < template.validation_rules.len()
            invariant
                r <= template.validation_rules.len(),
                ids == field_ids(template.fields@),
                ids.no_duplicates(),
                forall|k: int|
                    0 <= k < r ==> ids.contains((#[trigger] template.validation_rules[k]).field_id@),
            decreases template.validation_rules.len() - r,
        {
            let rule = &template.validation_rules[r];
            let mut found = false;
            let mut f: usize = 0;
            while f < template.fields.len() && !found
                invariant
                    f <= template.fields.len(),
                    ids == field_ids(template.fields@),
                    found ==> ids.contains(rule.field_id@),
                    !found ==> forall|j: int| 0 <= j < f ==> ids[j] != rule.field_id@,
                decreases template.fields.len() - f,
            {
                if template.fields[f].id == rule.field_id {
                    proof {
                        assert(ids[f as int] == rule.field_id@);
                    }
                    found = true;
                }
                f = f + 1;
            }
            if !found {
                return false;
            }
            r = r + 1;
        }
        true
    }

    /// Whether the text is empty.
    fn is_empty_text(text: &String) -> (empty: bool)
        ensures
            empty == (bytes_of(text@).len() == 0),
    {
        text.as_str().as_bytes().len() == 0
    }

    /// Whether the text is an e-mail address, as far as is checked:
    /// whether it holds an `@` and a `.`.
    pub fn is_valid_email(email: &String) -> (valid: bool)
        ensures
            valid == is_email(bytes_of(email@)),
    {
        let bytes = email.as_str().as_bytes();
        contains_byte(bytes, 0x40) && contains_byte(bytes, 0x2e)
    }

    /// Whether the text is a web address: whether it begins with `http://`
    /// or with `https://`.
    pub fn is_valid_url(url: &String) -> (valid: bool)
        ensures
            valid == is_url(bytes_of(url@)),
    {
        let bytes = url.as_str().as_bytes();
        let http: [u8; 7] = [0x68, 0x74, 0x74, 0x70, 0x3a, 0x2f, 0x2f];
        let https: [u8; 8] = [0x68, 0x74, 0x74, 0x70, 0x73, 0x3a, 0x2f, 0x2f];
        proof {
            assert(http@ =~= http_prefix());
            assert(https@ =~= https_prefix());
        }
        starts_with_bytes(bytes, http.as_slice()) || starts_with_bytes(bytes, https.as_slice())
    }

    /// Whether `value` fits `field`.
    pub fn value_fits_field(field: &TemplateField, value: &String) -> (fits: bool)
        ensures
            fits == value_fits(*field, bytes_of(value@)),
    {
        let bytes = value.as_str().as_bytes();
        if field.field_type == "email".to_owned() {
            if !Self::is_valid_email(value) {
                return false;
            }
        } else if field.field_type == "url".to_owned() {
            if !Self::is_valid_url(value) {
                return false;
            }
        } else if field.field_type == "number".to_owned() {
            if !parses_as_i64(bytes) {
                return false;
            }
        }
        proof {
            reveal_strlit("email");
            reveal_strlit("url");
            reveal_strlit("number");
            assert("email"@.len() == 5 && "url"@.len() == 3 && "number"@.len() == 6);
        }
        match field.min_length {
            Some(least) => {
                if bytes.len() < least as usize {
                    return false;
                }
            },
            None => {},
        }
        match field.max_length {
            Some(most) => {
                if bytes.len() > most as usize {
                    return false;
                }
            },
            None => {},
        }
        match &field.pattern {
            Some(pattern) => {
                if !contains_bytes(bytes, pattern.as_str().as_bytes()) {
                    return false;
                }
            },
            None => {},
        }
        true
    }

    /// The first value that `data` gives under `key`, if it gives one.
    pub fn find_value<'a>(data: &'a Vec<DataValue>, key: &String) -> (found: Option<&'a String>)
        ensures
            match found {
                Some(value) => value_of(data@, key@) == Some(bytes_of(value@)),
                None => value_of(data@, key@) is None,
            },
    {
        let mut i: usize = 0;
        proof {
            assert(data@.skip(0) =~= data@);
        }
        while i < data.len()
            invariant
                i <= data.len(),
                value_of(data@, key@) == value_of(data@.skip(i as int), key@),
            decreases data.len() - i,
        {
            proof {
                assert(data@.skip(i as int).first() == data@[i as int]);
                assert(data@.skip(i as int).drop_first() =~= data@.skip(i + 1));
            }
            if data[i].key == *key {
                return Some(&data[i].value);
            }
            i = i + 1;
        }
        proof {
            assert(data@.skip(i as int) =~= Seq::empty());
        }
        None
    }

    /// Whether `data` fits the template: a required field must have a
    /// value, and not an empty one; the value that a field has must fit it.
    pub fn validate_data_against_template(template: &CustomTemplate, data: &Vec<DataValue>) -> (valid:
        bool)
        ensures
            valid == data_fits(*template, data@),
    {
        let mut i: usize = 0;
        while i < template.fields.len()
            invariant
                i <= template.fields.len(),
                forall|j: int|
                    0 <= j < i ==> field_satisfied(#[trigger] template.fields[j], data@),
            decreases template.fields.len() - i,
        {
            let field = &template.fields[i];
            match Self::find_value(data, &field.id) {
                Some(value) => {
                    if field.required && Self::is_empty_text(value) {
                        return false;
                    }
                    if !Self::value_fits_field(field, value) {
                        return false;
                    }
                },
                None => {
                    if field.required {
                        return false;
                    }
                },
            }
            i = i + 1;
        }
        true
    }

    /// Whether `data` fits the template, if there is one; without a
    /// template nothing fits.
    pub fn validate_template_data(template: Option<&CustomTemplate>, data: &Vec<DataValue>) -> (valid:
        bool)
        ensures
            valid == match template {
                Some(template) => data_fits(*template, data@),
                None => false,
            },
    {
        match template {
            Some(template) => Self::validate_data_against_template(template, data),
            None => false,
        }
    }
}

} // verus!
