//! What holds of embeds and components in their JSON form.

use crate::components;
use crate::discord_types;
use crate::discord_types::{ComponentView, EmbedView, OptionView, RowView};
use crate::json::Tree;
use vstd::prelude::*;

verus! {

/// The object has the member, or has it not.
pub open spec fn has_member(t: Tree, key: Seq<char>, value: Option<Tree>) -> bool {
    t matches Tree::Object(m) && match value {
        Some(v) => m.contains_key(key) && m[key] == v,
        None => !m.contains_key(key),
    }
}

/// The JSON form of a text, if there is one.
pub open spec fn maybe_text(o: Option<Seq<char>>) -> Option<Tree> {
    match o {
        Some(s) => Some(Tree::Str(s)),
        None => None,
    }
}

/// The JSON form of a number, if there is one.
pub open spec fn maybe_number(o: Option<u32>) -> Option<Tree> {
    match o {
        Some(n) => Some(Tree::Number(Some(n as u64))),
        None => None,
    }
}

/// The JSON form of an address, if there is one.
pub open spec fn maybe_address(o: Option<Seq<char>>) -> Option<Tree> {
    match o {
        Some(s) => Some(Tree::Object(map!["url"@ => Tree::Str(s)])),
        None => None,
    }
}

/// The JSON form of a field with its name, its value, and whether it stands beside others.
pub open spec fn field_object(name: Seq<char>, value: Seq<char>, inline: bool) -> Tree {
    Tree::Object(
        map!["name"@ => Tree::Str(name), "value"@ => Tree::Str(value), "inline"@ => Tree::Bool(inline)],
    )
}

/// The members of an embed, or of a component, are named differently.
proof fn lemma_keys_differ()
    ensures
        "title"@ != "description"@,
        "title"@ != "color"@,
        "title"@ != "fields"@,
        "title"@ != "image"@,
        "title"@ != "thumbnail"@,
        "title"@ != "footer"@,
        "title"@ != "url"@,
        "description"@ != "color"@,
        "description"@ != "fields"@,
        "description"@ != "image"@,
        "description"@ != "thumbnail"@,
        "description"@ != "footer"@,
        "description"@ != "url"@,
        "color"@ != "fields"@,
        "color"@ != "image"@,
        "color"@ != "thumbnail"@,
        "color"@ != "footer"@,
        "color"@ != "url"@,
        "fields"@ != "image"@,
        "fields"@ != "thumbnail"@,
        "fields"@ != "footer"@,
        "fields"@ != "url"@,
        "image"@ != "thumbnail"@,
        "image"@ != "footer"@,
        "image"@ != "url"@,
        "thumbnail"@ != "footer"@,
        "thumbnail"@ != "url"@,
        "footer"@ != "url"@,
{
    reveal_strlit("title");
    reveal_strlit("description");
    reveal_strlit("color");
    reveal_strlit("fields");
    reveal_strlit("image");
    reveal_strlit("thumbnail");
    reveal_strlit("footer");
    reveal_strlit("url");
    assert("title"@.len() == 5 && "title"@[0] == 't');
    assert("description"@.len() == 11);
    assert("color"@.len() == 5 && "color"@[0] == 'c');
    assert("fields"@.len() == 6 && "fields"@[1] == 'i');
    assert("image"@.len() == 5 && "image"@[0] == 'i');
    assert("thumbnail"@.len() == 9);
    assert("footer"@.len() == 6 && "footer"@[1] == 'o');
    assert("url"@.len() == 3);
}

/// An embed is written with all that it holds and nothing else: title, description, color, image,
/// thumbnail, footer and address, each if there is one.
pub proof fn embeds_are_written_whole(e: EmbedView, key: Seq<char>)
    ensures
        ({
            let t = discord_types::embed_tree(e);
            &&& has_member(t, "title"@, maybe_text(e.title))
            &&& has_member(t, "description"@, maybe_text(e.description))
            &&& has_member(t, "color"@, maybe_number(e.color))
            &&& has_member(t, "image"@, maybe_address(e.image))
            &&& has_member(t, "thumbnail"@, maybe_address(e.thumbnail))
            &&& has_member(t, "url"@, maybe_text(e.url))
            &&& e.footer is None ==> has_member(t, "footer"@, None)
            &&& e.footer matches Some(f) ==> f.icon_url is None ==> has_member(
                t,
                "footer"@,
                Some(Tree::Object(map!["text"@ => Tree::Str(f.text)])),
            )
            &&& e.footer matches Some(f) ==> f.icon_url matches Some(u) ==> has_member(
                t,
                "footer"@,
                Some(Tree::Object(map!["text"@ => Tree::Str(f.text), "icon_url"@ => Tree::Str(u)])),
            )
            &&& e.fields.len() == 0 ==> has_member(t, "fields"@, None)
            &&& t matches Tree::Object(m) && (m.contains_key(key) ==> key == "title"@ || key
                == "description"@ || key == "color"@ || key == "fields"@ || key == "image"@ || key
                == "thumbnail"@ || key == "footer"@ || key == "url"@)
        }),
{
    lemma_keys_differ();
}

/// An embed is written with every field, in order: with its name, its value, and whether it stands
/// beside others where that is said.
pub proof fn every_field_is_written(e: EmbedView, i: int)
    requires
        0 <= i < e.fields.len(),
    ensures
        ({
            let t = discord_types::embed_tree(e);
            &&& t matches Tree::Object(m) && m.contains_key("fields"@)
            &&& t.at("fields"@) matches Tree::Array(fs)
            &&& fs.len() == e.fields.len()
            &&& e.fields[i].inline matches Some(b) ==> fs[i] == field_object(
                e.fields[i].name,
                e.fields[i].value,
                b,
            )
            &&& e.fields[i].inline is None ==> fs[i] == Tree::Object(
                map!["name"@ => Tree::Str(e.fields[i].name), "value"@ => Tree::Str(e.fields[i].value)],
            )
        }),
{
    lemma_keys_differ();
}

/// A button is written with its kind, style, label and identifier.
pub proof fn buttons_are_written_whole(kind: u8, style: u8, label: Seq<char>, id: Seq<char>)
    ensures
        discord_types::component_tree(
            ComponentView::Button { component_type: kind, style, label, custom_id: id },
        ) == Tree::Object(
            map![
                "type"@ => Tree::Number(Some(kind as u64)),
                "style"@ => Tree::Number(Some(style as u64)),
                "label"@ => Tree::Str(label),
                "custom_id"@ => Tree::Str(id),
            ],
        ),
{
}

proof fn lemma_menu_keys_differ()
    ensures
        "type"@ != "custom_id"@,
        "type"@ != "placeholder"@,
        "type"@ != "options"@,
        "type"@ != "min_values"@,
        "type"@ != "max_values"@,
        "custom_id"@ != "placeholder"@,
        "custom_id"@ != "options"@,
        "custom_id"@ != "min_values"@,
        "custom_id"@ != "max_values"@,
        "placeholder"@ != "options"@,
        "placeholder"@ != "min_values"@,
        "placeholder"@ != "max_values"@,
        "options"@ != "min_values"@,
        "options"@ != "max_values"@,
        "min_values"@ != "max_values"@,
        "label"@ != "value"@,
        "label"@ != "description"@,
        "label"@ != "default"@,
        "value"@ != "description"@,
        "value"@ != "default"@,
        "description"@ != "default"@,
{
    reveal_strlit("type");
    reveal_strlit("custom_id");
    reveal_strlit("placeholder");
    reveal_strlit("options");
    reveal_strlit("min_values");
    reveal_strlit("max_values");
    reveal_strlit("label");
    reveal_strlit("value");
    reveal_strlit("description");
    reveal_strlit("default");
    assert("type"@.len() == 4);
    assert("custom_id"@.len() == 9);
    assert("placeholder"@.len() == 11);
    assert("options"@.len() == 7);
    assert("min_values"@.len() == 10 && "min_values"@[1] == 'i');
    assert("max_values"@.len() == 10 && "max_values"@[1] == 'a');
    assert("label"@.len() == 5 && "label"@[0] == 'l');
    assert("value"@.len() == 5 && "value"@[0] == 'v');
    assert("description"@.len() == 11);
    assert("default"@.len() == 7);
}

/// A select menu is written with its kind, its identifier, and its placeholder and bounds if there
/// are any; and with every option.
pub proof fn menus_are_written_whole(
    kind: u8,
    id: Seq<char>,
    placeholder: Option<Seq<char>>,
    options: Seq<OptionView>,
    min_values: Option<u32>,
    max_values: Option<u32>,
)
    ensures
        ({
            let t = discord_types::component_tree(
                ComponentView::SelectMenu {
                    component_type: kind,
                    custom_id: id,
                    placeholder,
                    options,
                    min_values,
                    max_values,
                },
            );
            &&& has_member(t, "type"@, Some(Tree::Number(Some(kind as u64))))
            &&& has_member(t, "custom_id"@, Some(Tree::Str(id)))
            &&& has_member(t, "placeholder"@, maybe_text(placeholder))
            &&& has_member(t, "min_values"@, maybe_number(min_values))
            &&& has_member(t, "max_values"@, maybe_number(max_values))
            &&& t.at("options"@) matches Tree::Array(os)
            &&& os.len() == options.len()
            &&& forall|i: int| 0 <= i < os.len() ==> writes_option(#[trigger] os[i], options[i])
        }),
{
    lemma_menu_keys_differ();
    let os = options.map_values(|o: OptionView| discord_types::option_tree(o));
    assert forall|i: int| 0 <= i < os.len() implies writes_option(#[trigger] os[i], options[i]) by {
        assert(os[i] == discord_types::option_tree(options[i]));
    }
}

/// The object is an option: its label and value, and its description and whether it is chosen
/// beforehand, if that is said.
pub open spec fn writes_option(t: Tree, o: OptionView) -> bool {
    &&& has_member(t, "label"@, Some(Tree::Str(o.label)))
    &&& has_member(t, "value"@, Some(Tree::Str(o.value)))
    &&& has_member(t, "description"@, maybe_text(o.description))
    &&& has_member(
        t,
        "default"@,
        match o.default {
            Some(b) => Some(Tree::Bool(b)),
            None => None,
        },
    )
}

/// A row is written with its kind and every one of its components, in order.
pub proof fn rows_are_written_whole(r: RowView)
    ensures
        ({
            let cs = Seq::new(
                r.components.len(),
                |i: int| discord_types::component_tree(r.components[i]),
            );
            discord_types::row_tree(r) == Tree::Object(
                map![
                    "type"@ => Tree::Number(Some(r.component_type as u64)),
                    "components"@ => Tree::Array(cs),
                ],
            )
        }),
{
    let cs = Seq::new(
        r.components.len(),
        |i: int| discord_types::component_tree(r.components[i]),
    );
    assert(r.components.map_values(|c: ComponentView| discord_types::component_tree(c)) =~= cs);
}

// ---------------------------------------------------------------- rows

/// The list holds buttons alone.
pub open spec fn only_buttons(cs: Seq<ComponentView>) -> bool {
    forall|i: int| 0 <= i < cs.len() ==> #[trigger] cs[i] is Button
}

/// The rows are the components, five to a row, and the rest in the last.
pub open spec fn by_fives(rows: Seq<RowView>, cs: Seq<ComponentView>) -> bool {
    &&& rows.len() == (cs.len() + 4) / 5
    &&& forall|k: int|
        0 <= k < rows.len() ==> (#[trigger] rows[k]).component_type == 1 && rows[k].components
            == cs.subrange(
            5 * k,
            if 5 * k + 5 < cs.len() {
                5 * k + 5
            } else {
                cs.len() as int
            },
        )
}

proof fn lemma_gathered_buttons(cs: Seq<ComponentView>)
    requires
        only_buttons(cs),
    ensures
        ({
            let g = components::gathered(cs);
            &&& g.full.len() == cs.len() / 5
            &&& forall|k: int|
                0 <= k < g.full.len() ==> #[trigger] g.full[k] == cs.subrange(5 * k, 5 * k + 5)
            &&& g.open == cs.subrange(5 * (cs.len() / 5) as int, cs.len() as int)
        }),
    decreases cs.len(),
{
    if cs.len() == 0 {
        assert(components::gathered(cs).open =~= cs.subrange(0, 0));
    } else {
        let front = cs.drop_last();
        let n = cs.len() - 1;
        assert forall|i: int| 0 <= i < front.len() implies #[trigger] front[i] is Button by {
            assert(cs[i] is Button);
        }
        lemma_gathered_buttons(front);
        assert(cs[n] is Button);
        let f = components::gathered(front);
        let g = components::gathered(cs);
        let q = (n / 5) as int;
        assert(f.open.push(cs[n]) =~= cs.subrange(5 * q, cs.len() as int));
        assert forall|k: int| 0 <= k < f.full.len() implies #[trigger] f.full[k] == cs.subrange(
            5 * k,
            5 * k + 5,
        ) by {
            assert(front.subrange(5 * k, 5 * k + 5) =~= cs.subrange(5 * k, 5 * k + 5));
        }
        if cs.len() % 5 == 0 {
            assert(cs.len() / 5 == q + 1);
            assert(g.open =~= cs.subrange(5 * (q + 1), cs.len() as int));
            assert forall|k: int| 0 <= k < g.full.len() implies #[trigger] g.full[k]
                == cs.subrange(5 * k, 5 * k + 5) by {
                if k < q {
                    assert(g.full[k] == f.full[k]);
                }
            }
        } else {
            assert(cs.len() / 5 == q);
        }
    }
}

/// Buttons stand five to a row, in order.
pub proof fn buttons_stand_five_to_a_row(cs: Seq<ComponentView>)
    requires
        only_buttons(cs),
    ensures
        by_fives(components::action_rows(cs), cs),
{
    lemma_gathered_buttons(cs);
    let g = components::gathered(cs);
    let rows = components::action_rows(cs);
    let lists = components::closed_rows(g);
    let n = cs.len() as int;
    assert forall|k: int| 0 <= k < rows.len() implies (#[trigger] rows[k]).component_type == 1
        && rows[k].components == cs.subrange(
        5 * k,
        if 5 * k + 5 < cs.len() {
            5 * k + 5
        } else {
            cs.len() as int
        },
    ) by {
        assert(rows[k].components == lists[k]);
        if k < g.full.len() {
            assert(lists[k] == g.full[k]);
            if 5 * k + 5 == n {
                assert(cs.subrange(5 * k, 5 * k + 5) == cs.subrange(5 * k, n));
            }
        } else {
            assert(lists[k] == g.open);
        }
    }
}

proof fn lemma_gathered_after(a: Seq<ComponentView>, b: Seq<ComponentView>)
    requires
        components::gathered(a).open.len() == 0,
    ensures
        components::gathered(a + b).full == components::gathered(a).full + components::gathered(
            b,
        ).full,
        components::gathered(a + b).open == components::gathered(b).open,
    decreases b.len(),
{
    let left = components::gathered(a);
    if b.len() == 0 {
        assert(a + b =~= a);
        assert(left.full + components::gathered(b).full =~= left.full);
        assert(left.open =~= components::gathered(b).open);
    } else {
        assert((a + b).drop_last() =~= a + b.drop_last());
        lemma_gathered_after(a, b.drop_last());
        let all = components::gathered(a + b);
        let before = components::gathered(b.drop_last());
        assert(all.full =~= left.full + components::gathered(b).full);
    }
}

/// A select menu stands in a row of its own, between the rows of what comes before it and the rows of
/// what comes behind it.
pub proof fn menus_stand_alone(a: Seq<ComponentView>, menu: ComponentView, b: Seq<ComponentView>)
    requires
        menu is SelectMenu,
    ensures
        components::action_rows(a + seq![menu] + b) == components::action_rows(a) + seq![
            RowView { component_type: 1, components: seq![menu] },
        ] + components::action_rows(b),
{
    let upto = a + seq![menu];
    assert(upto.drop_last() =~= a);
    let g = components::gathered(upto);
    lemma_gathered_after(upto, b);
    let all = components::closed_rows(components::gathered(upto + b));
    let left = components::closed_rows(components::gathered(a));
    let right = components::closed_rows(components::gathered(b));
    assert(all =~= left + seq![seq![menu]] + right);
    assert(components::in_rows(all) =~= components::in_rows(left) + seq![
        RowView { component_type: 1, components: seq![menu] },
    ] + components::in_rows(right));
}

} // verus!
