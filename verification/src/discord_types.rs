//! Discord's embeds and interactive components, and their JSON form.

use crate::json;
use crate::json::{Json, Tree};
use crate::text;
use vstd::prelude::*;

verus! {

// ---------------------------------------------------------------- embeds

/// An embed: a framed block with a title, a description, fields and media.
#[derive(Debug)]
pub struct DiscordEmbed {
    pub title: Option<String>,
    pub description: Option<String>,
    pub color: Option<u32>,
    pub fields: Vec<EmbedField>,
    pub image: Option<EmbedMedia>,
    pub thumbnail: Option<EmbedMedia>,
    pub footer: Option<EmbedFooter>,
    pub url: Option<String>,
}

/// A field of an embed.
#[derive(Debug)]
pub struct EmbedField {
    pub name: String,
    pub value: String,
    pub inline: Option<bool>,
}

/// An image or thumbnail of an embed.
#[derive(Debug)]
pub struct EmbedMedia {
    pub url: String,
}

/// The footer of an embed.
#[derive(Debug)]
pub struct EmbedFooter {
    pub text: String,
    pub icon_url: Option<String>,
}

/// What an embed holds.
pub struct EmbedView {
    pub title: Option<Seq<char>>,
    pub description: Option<Seq<char>>,
    pub color: Option<u32>,
    pub fields: Seq<FieldView>,
    pub image: Option<Seq<char>>,
    pub thumbnail: Option<Seq<char>>,
    pub footer: Option<FooterView>,
    pub url: Option<Seq<char>>,
}

/// What a field of an embed holds.
pub struct FieldView {
    pub name: Seq<char>,
    pub value: Seq<char>,
    pub inline: Option<bool>,
}

/// What the footer of an embed holds.
pub struct FooterView {
    pub text: Seq<char>,
    pub icon_url: Option<Seq<char>>,
}

impl View for EmbedField {
    type V = FieldView;

    open spec fn view(&self) -> FieldView {
        FieldView { name: self.name@, value: self.value@, inline: self.inline }
    }
}

impl View for EmbedFooter {
    type V = FooterView;

    open spec fn view(&self) -> FooterView {
        FooterView { text: self.text@, icon_url: text::opt_text(self.icon_url) }
    }
}

/// What the fields of an embed hold.
pub open spec fn field_views(fields: Seq<EmbedField>) -> Seq<FieldView> {
    fields.map_values(|f: EmbedField| f@)
}

/// The address of an image or thumbnail.
pub open spec fn media_url(m: Option<EmbedMedia>) -> Option<Seq<char>> {
    match m {
        Some(media) => Some(media.url@),
        None => None,
    }
}

impl View for DiscordEmbed {
    type V = EmbedView;

    open spec fn view(&self) -> EmbedView {
        EmbedView {
            title: text::opt_text(self.title),
            description: text::opt_text(self.description),
            color: self.color,
            fields: field_views(self.fields@),
            image: media_url(self.image),
            thumbnail: media_url(self.thumbnail),
            footer: match self.footer {
                Some(f) => Some(f@),
                None => None,
            },
            url: text::opt_text(self.url),
        }
    }
}

/// The embed that holds nothing.
pub open spec fn empty_embed() -> EmbedView {
    EmbedView {
        title: None,
        description: None,
        color: None,
        fields: Seq::empty(),
        image: None,
        thumbnail: None,
        footer: None,
        url: None,
    }
}

impl Default for DiscordEmbed {
    fn default() -> (r: DiscordEmbed)
        ensures
            r@ == empty_embed(),
    {
        let fields: Vec<EmbedField> = Vec::new();
        assert(field_views(fields@) =~= Seq::<FieldView>::empty());
        DiscordEmbed {
            title: None,
            description: None,
            color: None,
            fields,
            image: None,
            thumbnail: None,
            footer: None,
            url: None,
        }
    }
}

/// The object, with one more member if there is a value for it.
pub open spec fn with_opt(t: Tree, key: Seq<char>, value: Option<Tree>) -> Tree {
    match value {
        Some(v) => t.with(key, v),
        None => t,
    }
}

/// The string value of an optional text.
pub open spec fn opt_str(o: Option<Seq<char>>) -> Option<Tree> {
    match o {
        Some(s) => Some(Tree::Str(s)),
        None => None,
    }
}

/// The JSON form of a field.
pub open spec fn field_tree(f: FieldView) -> Tree {
    with_opt(
        json::obj().with("name"@, Tree::Str(f.name)).with("value"@, Tree::Str(f.value)),
        "inline"@,
        match f.inline {
            Some(b) => Some(Tree::Bool(b)),
            None => None,
        },
    )
}

/// The JSON form of an image or thumbnail.
pub open spec fn media_tree(url: Seq<char>) -> Tree {
    json::obj().with("url"@, Tree::Str(url))
}

/// The JSON form of a footer.
pub open spec fn footer_tree(f: FooterView) -> Tree {
    with_opt(json::obj().with("text"@, Tree::Str(f.text)), "icon_url"@, opt_str(f.icon_url))
}

/// The JSON form of an embed: a member for each part that there is.
pub open spec fn embed_tree(e: EmbedView) -> Tree {
    let t1 = with_opt(json::obj(), "title"@, opt_str(e.title));
    let t2 = with_opt(t1, "description"@, opt_str(e.description));
    let t3 = with_opt(
        t2,
        "color"@,
        match e.color {
            Some(c) => Some(json::num(c as int)),
            None => None,
        },
    );
    let t4 = with_opt(
        t3,
        "fields"@,
        if e.fields.len() == 0 {
            None
        } else {
            Some(Tree::Array(e.fields.map_values(|f: FieldView| field_tree(f))))
        },
    );
    let t5 = with_opt(
        t4,
        "image"@,
        match e.image {
            Some(u) => Some(media_tree(u)),
            None => None,
        },
    );
    let t6 = with_opt(
        t5,
        "thumbnail"@,
        match e.thumbnail {
            Some(u) => Some(media_tree(u)),
            None => None,
        },
    );
    let t7 = with_opt(
        t6,
        "footer"@,
        match e.footer {
            Some(f) => Some(footer_tree(f)),
            None => None,
        },
    );
    with_opt(t7, "url"@, opt_str(e.url))
}

/// The object, with one more member if there is a text for it.
pub fn with_opt_str(j: Json, key: &str, value: &Option<String>) -> (r: Json)
    ensures
        r@ == with_opt(j@, key@, opt_str(text::opt_text(*value))),
{
    match value {
        Some(s) => j.with(key, Json::string(s.as_str())),
        None => j,
    }
}

/// A copy of an optional string.
pub fn copy_opt(o: &Option<String>) -> (r: Option<String>)
    ensures
        text::opt_text(r) == text::opt_text(*o),
{
    match o {
        Some(s) => Some(s.clone()),
        None => None,
    }
}

impl EmbedField {
    /// The JSON form.
    pub fn to_json(&self) -> (r: Json)
        ensures
            r@ == field_tree(self@),
    {
        let j = Json::object().with("name", Json::string(self.name.as_str())).with(
            "value",
            Json::string(self.value.as_str()),
        );
        match self.inline {
            Some(b) => j.with("inline", Json::Bool(b)),
            None => j,
        }
    }
}

impl DiscordEmbed {
    /// The JSON form.
    pub fn to_json(&self) -> (r: Json)
        ensures
            r@ == embed_tree(self@),
    {
        let j1 = with_opt_str(Json::object(), "title", &self.title);
        let j2 = with_opt_str(j1, "description", &self.description);
        let j3 = match self.color {
            Some(c) => j2.with("color", Json::number(c as u64)),
            None => j2,
        };
        let j4 = if self.fields.len() == 0 {
            j3
        } else {
            let mut items: Vec<Json> = Vec::new();
            let mut i: usize = 0;
            let ghost want = self@.fields.map_values(|f: FieldView| field_tree(f));
            assert(json::trees(items@) =~= want.take(0));
            while i < self.fields.len()
                invariant
                    i <= self.fields@.len(),
                    want == self@.fields.map_values(|f: FieldView| field_tree(f)),
                    json::trees(items@) == want.take(i as int),
                decreases self.fields@.len() - i,
            {
                let item = self.fields[i].to_json();
                proof {
                    json::lemma_trees_push(items@, item);
                    assert(want.take(i + 1) =~= want.take(i as int).push(want[i as int]));
                }
                items.push(item);
                i += 1;
            }
            assert(want.take(want.len() as int) =~= want);
            j3.with("fields", Json::Array(items))
        };
        let j5 = match &self.image {
            Some(m) => j4.with("image", Json::object().with("url", Json::string(m.url.as_str()))),
            None => j4,
        };
        let j6 = match &self.thumbnail {
            Some(m) => j5.with(
                "thumbnail",
                Json::object().with("url", Json::string(m.url.as_str())),
            ),
            None => j5,
        };
        let j7 = match &self.footer {
            Some(f) => j6.with(
                "footer",
                with_opt_str(
                    Json::object().with("text", Json::string(f.text.as_str())),
                    "icon_url",
                    &f.icon_url,
                ),
            ),
            None => j6,
        };
        with_opt_str(j7, "url", &self.url)
    }
}

// ---------------------------------------------------------------- components

/// A row of components.
#[derive(Debug)]
pub struct ActionRow {
    /// Always 1.
    pub component_type: u8,
    pub components: Vec<Component>,
}

/// A button or a select menu.
#[derive(Debug)]
pub enum Component {
    Button {
        /// Always 2.
        component_type: u8,
        /// 1 is primary, 2 secondary, 3 success, 4 danger.
        style: u8,
        label: String,
        custom_id: String,
    },
    SelectMenu {
        /// Always 3.
        component_type: u8,
        custom_id: String,
        placeholder: Option<String>,
        options: Vec<SelectOption>,
        min_values: Option<u32>,
        max_values: Option<u32>,
    },
}

/// An option of a select menu.
#[derive(Debug)]
pub struct SelectOption {
    pub label: String,
    pub value: String,
    pub description: Option<String>,
    pub default: Option<bool>,
}

/// What a component holds.
pub enum ComponentView {
    Button { component_type: u8, style: u8, label: Seq<char>, custom_id: Seq<char> },
    SelectMenu {
        component_type: u8,
        custom_id: Seq<char>,
        placeholder: Option<Seq<char>>,
        options: Seq<OptionView>,
        min_values: Option<u32>,
        max_values: Option<u32>,
    },
}

/// What an option of a select menu holds.
pub struct OptionView {
    pub label: Seq<char>,
    pub value: Seq<char>,
    pub description: Option<Seq<char>>,
    pub default: Option<bool>,
}

/// What a row of components holds.
pub struct RowView {
    pub component_type: u8,
    pub components: Seq<ComponentView>,
}

impl View for SelectOption {
    type V = OptionView;

    open spec fn view(&self) -> OptionView {
        OptionView {
            label: self.label@,
            value: self.value@,
            description: text::opt_text(self.description),
            default: self.default,
        }
    }
}

/// What the options of a select menu hold.
pub open spec fn option_views(options: Seq<SelectOption>) -> Seq<OptionView> {
    options.map_values(|o: SelectOption| o@)
}

impl View for Component {
    type V = ComponentView;

    open spec fn view(&self) -> ComponentView {
        match *self {
            Component::Button { component_type, style, label, custom_id } => ComponentView::Button {
                component_type,
                style,
                label: label@,
                custom_id: custom_id@,
            },
            Component::SelectMenu {
                component_type,
                custom_id,
                placeholder,
                options,
                min_values,
                max_values,
            } => ComponentView::SelectMenu {
                component_type,
                custom_id: custom_id@,
                placeholder: text::opt_text(placeholder),
                options: option_views(options@),
                min_values,
                max_values,
            },
        }
    }
}

/// What a list of components holds.
pub open spec fn component_views(components: Seq<Component>) -> Seq<ComponentView> {
    components.map_values(|c: Component| c@)
}

impl View for ActionRow {
    type V = RowView;

    open spec fn view(&self) -> RowView {
        RowView {
            component_type: self.component_type,
            components: component_views(self.components@),
        }
    }
}

/// What a list of rows holds.
pub open spec fn row_views(rows: Seq<ActionRow>) -> Seq<RowView> {
    rows.map_values(|r: ActionRow| r@)
}

/// The number value of an optional number.
pub open spec fn opt_num(o: Option<u32>) -> Option<Tree> {
    match o {
        Some(n) => Some(json::num(n as int)),
        None => None,
    }
}

/// The JSON form of an option.
pub open spec fn option_tree(o: OptionView) -> Tree {
    with_opt(
        with_opt(
            json::obj().with("label"@, Tree::Str(o.label)).with("value"@, Tree::Str(o.value)),
            "description"@,
            opt_str(o.description),
        ),
        "default"@,
        match o.default {
            Some(b) => Some(Tree::Bool(b)),
            None => None,
        },
    )
}

/// The JSON form of a component.
pub open spec fn component_tree(c: ComponentView) -> Tree {
    match c {
        ComponentView::Button { component_type, style, label, custom_id } => json::obj().with(
            "type"@,
            json::num(component_type as int),
        ).with("style"@, json::num(style as int)).with("label"@, Tree::Str(label)).with(
            "custom_id"@,
            Tree::Str(custom_id),
        ),
        ComponentView::SelectMenu {
            component_type,
            custom_id,
            placeholder,
            options,
            min_values,
            max_values,
        } => with_opt(
            with_opt(
                with_opt(
                    json::obj().with("type"@, json::num(component_type as int)).with(
                        "custom_id"@,
                        Tree::Str(custom_id),
                    ),
                    "placeholder"@,
                    opt_str(placeholder),
                ).with(
                    "options"@,
                    Tree::Array(options.map_values(|o: OptionView| option_tree(o))),
                ),
                "min_values"@,
                opt_num(min_values),
            ),
            "max_values"@,
            opt_num(max_values),
        ),
    }
}

/// The JSON form of a row.
pub open spec fn row_tree(r: RowView) -> Tree {
    json::obj().with("type"@, json::num(r.component_type as int)).with(
        "components"@,
        Tree::Array(r.components.map_values(|c: ComponentView| component_tree(c))),
    )
}

impl SelectOption {
    /// The JSON form.
    pub fn to_json(&self) -> (r: Json)
        ensures
            r@ == option_tree(self@),
    {
        let j = with_opt_str(
            Json::object().with("label", Json::string(self.label.as_str())).with(
                "value",
                Json::string(self.value.as_str()),
            ),
            "description",
            &self.description,
        );
        match self.default {
            Some(b) => j.with("default", Json::Bool(b)),
            None => j,
        }
    }
}

fn with_opt_number(j: Json, key: &str, value: Option<u32>) -> (r: Json)
    ensures
        r@ == with_opt(j@, key@, opt_num(value)),
{
    match value {
        Some(n) => j.with(key, Json::number(n as u64)),
        None => j,
    }
}

impl Component {
    /// The JSON form.
    pub fn to_json(&self) -> (r: Json)
        ensures
            r@ == component_tree(self@),
    {
        match self {
            Component::Button { component_type, style, label, custom_id } => Json::object().with(
                "type",
                Json::number(*component_type as u64),
            ).with("style", Json::number(*style as u64)).with(
                "label",
                Json::string(label.as_str()),
            ).with("custom_id", Json::string(custom_id.as_str())),
            Component::SelectMenu {
                component_type,
                custom_id,
                placeholder,
                options,
                min_values,
                max_values,
            } => {
                let j1 = with_opt_str(
                    Json::object().with("type", Json::number(*component_type as u64)).with(
                        "custom_id",
                        Json::string(custom_id.as_str()),
                    ),
                    "placeholder",
                    placeholder,
                );
                let mut items: Vec<Json> = Vec::new();
                let mut i: usize = 0;
                let ghost want = option_views(options@).map_values(|o: OptionView| option_tree(o));
                assert(json::trees(items@) =~= want.take(0));
                while i < options.len()
                    invariant
                        i <= options@.len(),
                        want == option_views(options@).map_values(|o: OptionView| option_tree(o)),
                        json::trees(items@) == want.take(i as int),
                    decreases options@.len() - i,
                {
                    let item = options[i].to_json();
                    proof {
                        json::lemma_trees_push(items@, item);
                        assert(want.take(i + 1) =~= want.take(i as int).push(want[i as int]));
                    }
                    items.push(item);
                    i += 1;
                }
                assert(want.take(want.len() as int) =~= want);
                let j2 = j1.with("options", Json::Array(items));
                with_opt_number(
                    with_opt_number(j2, "min_values", *min_values),
                    "max_values",
                    *max_values,
                )
            },
        }
    }
}

impl ActionRow {
    /// The JSON form.
    pub fn to_json(&self) -> (r: Json)
        ensures
            r@ == row_tree(self@),
    {
        let mut items: Vec<Json> = Vec::new();
        let mut i: usize = 0;
        let ghost want = self@.components.map_values(|c: ComponentView| component_tree(c));
        assert(json::trees(items@) =~= want.take(0));
        while i < self.components.len()
            invariant
                i <= self.components@.len(),
                want == self@.components.map_values(|c: ComponentView| component_tree(c)),
                json::trees(items@) == want.take(i as int),
            decreases self.components@.len() - i,
        {
            let item = self.components[i].to_json();
            proof {
                json::lemma_trees_push(items@, item);
                assert(want.take(i + 1) =~= want.take(i as int).push(want[i as int]));
            }
            items.push(item);
            i += 1;
        }
        assert(want.take(want.len() as int) =~= want);
        Json::object().with("type", Json::number(self.component_type as u64)).with(
            "components",
            Json::Array(items),
        )
    }
}

} // verus!
