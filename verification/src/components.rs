//! Interactive components in rows.

use crate::discord_types;
use crate::discord_types::{ActionRow, Component, ComponentView, OptionView, RowView, SelectOption};
use crate::text;
use crate::types::{MenuOption, MessageComponent};
use vstd::prelude::*;

verus! {

/// The Discord form of a select menu's options.
pub open spec fn menu_options(options: Seq<MenuOption>) -> Seq<OptionView> {
    options.map_values(
        |o: MenuOption|
            OptionView {
                label: o.label@,
                value: o.value@,
                description: text::opt_text(o.description),
                default: None,
            },
    )
}

/// The Discord form of a component.
pub open spec fn discord_component(c: MessageComponent) -> ComponentView {
    match c {
        MessageComponent::Button { label, custom_id, style } => ComponentView::Button {
            component_type: 2,
            style,
            label: label@,
            custom_id: custom_id@,
        },
        MessageComponent::SelectMenu {
            custom_id,
            placeholder,
            options,
            min_values,
            max_values,
        } => ComponentView::SelectMenu {
            component_type: 3,
            custom_id: custom_id@,
            placeholder: text::opt_text(placeholder),
            options: menu_options(options@),
            min_values: Some(min_values),
            max_values: Some(max_values),
        },
    }
}

/// The Discord form of a list of components.
pub open spec fn discord_components(cs: Seq<MessageComponent>) -> Seq<ComponentView> {
    cs.map_values(|c: MessageComponent| discord_component(c))
}

/// The Discord form of a component.
pub fn to_component(c: &MessageComponent) -> (r: Component)
    ensures
        r@ == discord_component(*c),
{
    match c {
        MessageComponent::Button { label, custom_id, style } => Component::Button {
            component_type: 2,
            style: *style,
            label: label.clone(),
            custom_id: custom_id.clone(),
        },
        MessageComponent::SelectMenu {
            custom_id,
            placeholder,
            options,
            min_values,
            max_values,
        } => {
            let mut menu: Vec<SelectOption> = Vec::new();
            let mut i: usize = 0;
            let ghost want = menu_options(options@);
            while i < options.len()
                invariant
                    i <= options@.len(),
                    want == menu_options(options@),
                    discord_types::option_views(menu@) =~= want.take(i as int),
                decreases options@.len() - i,
            {
                let o = &options[i];
                let item = SelectOption {
                    label: o.label.clone(),
                    value: o.value.clone(),
                    description: discord_types::copy_opt(&o.description),
                    default: None,
                };
                proof {
                    assert(item@ == want[i as int]);
                    assert(discord_types::option_views(menu@.push(item))
                        =~= discord_types::option_views(menu@).push(item@));
                    assert(want.take(i + 1) =~= want.take(i as int).push(want[i as int]));
                }
                menu.push(item);
                i += 1;
            }
            assert(want.take(want.len() as int) =~= want);
            Component::SelectMenu {
                component_type: 3,
                custom_id: custom_id.clone(),
                placeholder: discord_types::copy_opt(placeholder),
                options: menu,
                min_values: Some(*min_values),
                max_values: Some(*max_values),
            }
        },
    }
}

/// The rows that are complete and the row of buttons that is still open.
pub struct Rows {
    pub full: Seq<Seq<ComponentView>>,
    pub open: Seq<ComponentView>,
}

/// The most buttons that a row holds.
pub const ROW_LIMIT: usize = 5;

/// The rows with one more component. Buttons gather in the open row until it is full; a select
/// menu closes it and stands in a row of its own.
pub open spec fn with_component(rows: Rows, c: ComponentView) -> Rows {
    match c {
        ComponentView::Button { .. } => {
            let open = rows.open.push(c);
            if open.len() >= ROW_LIMIT {
                Rows { full: rows.full.push(open), open: Seq::empty() }
            } else {
                Rows { full: rows.full, open }
            }
        },
        ComponentView::SelectMenu { .. } => Rows {
            full: closed_rows(rows).push(seq![c]),
            open: Seq::empty(),
        },
    }
}

/// All rows, the open one among them unless it is empty.
pub open spec fn closed_rows(rows: Rows) -> Seq<Seq<ComponentView>> {
    if rows.open.len() == 0 {
        rows.full
    } else {
        rows.full.push(rows.open)
    }
}

/// The rows that components gather in.
pub open spec fn gathered(cs: Seq<ComponentView>) -> Rows
    decreases cs.len(),
{
    if cs.len() == 0 {
        Rows { full: Seq::empty(), open: Seq::empty() }
    } else {
        with_component(gathered(cs.drop_last()), cs.last())
    }
}

/// Components in action rows.
pub open spec fn action_rows(cs: Seq<ComponentView>) -> Seq<RowView> {
    in_rows(closed_rows(gathered(cs)))
}

/// Each list of components as an action row.
pub open spec fn in_rows(rows: Seq<Seq<ComponentView>>) -> Seq<RowView> {
    rows.map_values(|row: Seq<ComponentView>| RowView { component_type: 1, components: row })
}

fn push_row(rows: &mut Vec<ActionRow>, components: Vec<Component>)
    ensures
        discord_types::row_views(final(rows)@) == discord_types::row_views(old(rows)@).push(
            RowView {
                component_type: 1,
                components: discord_types::component_views(components@),
            },
        ),
        forall|full: Seq<Seq<ComponentView>>|
            discord_types::row_views(old(rows)@) == #[trigger] in_rows(full)
                ==> discord_types::row_views(final(rows)@) == in_rows(
                full.push(discord_types::component_views(components@)),
            ),
{
    let row = ActionRow { component_type: 1, components };
    proof {
        assert(discord_types::row_views(rows@.push(row)) =~= discord_types::row_views(rows@).push(
            row@,
        ));
        assert forall|full: Seq<Seq<ComponentView>>| true implies in_rows(
            full.push(row@.components),
        ) == (#[trigger] in_rows(full)).push(row@) by {
            assert(in_rows(full.push(row@.components)) =~= in_rows(full).push(row@));
        }
    }
    rows.push(row);
}

/// Groups components into action rows: at most five buttons in a row, one select menu in a row.
pub fn group_components(components: &Vec<MessageComponent>) -> (r: Vec<ActionRow>)
    ensures
        discord_types::row_views(r@) == action_rows(discord_components(components@)),
{
    let mut rows: Vec<ActionRow> = Vec::new();
    let mut current: Vec<Component> = Vec::new();
    let mut i: usize = 0;
    let ghost all = discord_components(components@);
    assert(all.take(0) =~= Seq::<ComponentView>::empty());
    assert(discord_types::component_views(current@) =~= Seq::<ComponentView>::empty());
    while i < components.len()
        invariant
            i <= components@.len(),
            all == discord_components(components@),
            current@.len() < ROW_LIMIT,
            discord_types::component_views(current@) == gathered(all.take(i as int)).open,
            discord_types::row_views(rows@) =~= in_rows(gathered(all.take(i as int)).full),
        decreases components@.len() - i,
    {
        let comp = to_component(&components[i]);
        let ghost before = gathered(all.take(i as int));
        let ghost c = comp@;
        proof {
            assert(all.take(i + 1).drop_last() =~= all.take(i as int));
            assert(all.take(i + 1).last() == c);
            assert(discord_types::component_views(current@.push(comp)) =~= before.open.push(c));
        }
        let is_button: bool = match &comp {
            Component::Button { .. } => true,
            Component::SelectMenu { .. } => false,
        };
        if is_button {
            current.push(comp);
            if current.len() >= ROW_LIMIT {
                push_row(&mut rows, current);
                current = Vec::new();
                assert(discord_types::component_views(current@) =~= Seq::<ComponentView>::empty());
            }
        } else {
            if current.len() > 0 {
                push_row(&mut rows, current);
                current = Vec::new();
            }
            let alone: Vec<Component> = vec![comp];
            proof {
                assert(discord_types::component_views(alone@) =~= seq![c]);
                assert(discord_types::component_views(current@) =~= Seq::<ComponentView>::empty());
            }
            push_row(&mut rows, alone);
        }
        i += 1;
    }
    assert(all.take(all.len() as int) =~= all);
    if current.len() > 0 {
        push_row(&mut rows, current);
    }
    rows
}

/// The components of all rows, in order.
pub open spec fn all_components(rows: Seq<RowView>) -> Seq<ComponentView>
    decreases rows.len(),
{
    if rows.len() == 0 {
        Seq::empty()
    } else {
        all_components(rows.drop_last()) + rows.last().components
    }
}

/// A row as Discord takes it: one select menu, or one to five buttons.
pub open spec fn valid_row(row: RowView) -> bool {
    &&& row.component_type == 1
    &&& 1 <= row.components.len() <= ROW_LIMIT
    &&& row.components.len() == 1 || forall|i: int|
        0 <= i < row.components.len() ==> (#[trigger] row.components[i]) is Button
}

spec fn flat(rows: Seq<Seq<ComponentView>>) -> Seq<ComponentView>
    decreases rows.len(),
{
    if rows.len() == 0 {
        Seq::empty()
    } else {
        flat(rows.drop_last()) + rows.last()
    }
}

proof fn lemma_flat_push(rows: Seq<Seq<ComponentView>>, row: Seq<ComponentView>)
    ensures
        flat(rows.push(row)) == flat(rows) + row,
{
    assert(rows.push(row).drop_last() =~= rows);
}

proof fn lemma_flat_rows(rows: Seq<Seq<ComponentView>>)
    ensures
        all_components(in_rows(rows)) == flat(rows),
    decreases rows.len(),
{
    if rows.len() > 0 {
        lemma_flat_rows(rows.drop_last());
        assert(in_rows(rows).drop_last() =~= in_rows(rows.drop_last()));
    }
}

spec fn row_ok(row: Seq<ComponentView>) -> bool {
    valid_row(RowView { component_type: 1, components: row })
}

proof fn lemma_gathered(cs: Seq<ComponentView>)
    ensures
        flat(gathered(cs).full) + gathered(cs).open == cs,
        gathered(cs).open.len() < ROW_LIMIT,
        forall|i: int| 0 <= i < gathered(cs).open.len() ==> (#[trigger] gathered(cs).open[i]) is Button,
        forall|i: int| 0 <= i < gathered(cs).full.len() ==> row_ok(#[trigger] gathered(cs).full[i]),
    decreases cs.len(),
{
    if cs.len() > 0 {
        let before = gathered(cs.drop_last());
        let c = cs.last();
        lemma_gathered(cs.drop_last());
        assert(cs =~= cs.drop_last().push(c));
        lemma_flat_push(before.full, before.open);
        match c {
            ComponentView::Button { .. } => {
                lemma_flat_push(before.full, before.open.push(c));
                assert(flat(before.full) + before.open.push(c) =~= (flat(before.full)
                    + before.open).push(c));
                assert(flat(before.full.push(before.open.push(c))) + Seq::<ComponentView>::empty()
                    =~= flat(before.full.push(before.open.push(c))));
            },
            ComponentView::SelectMenu { .. } => {
                let rows = closed_rows(before);
                lemma_flat_push(rows, seq![c]);
                assert(flat(before.full) + Seq::<ComponentView>::empty() =~= flat(before.full));
                assert(before.open.len() == 0 ==> before.open =~= Seq::<ComponentView>::empty());
                assert(flat(rows) == cs.drop_last());
                assert(flat(rows.push(seq![c])) + Seq::<ComponentView>::empty() =~= cs);
            },
        }
    } else {
        assert(flat(gathered(cs).full) + gathered(cs).open =~= cs);
    }
}

/// Grouping into rows loses, repeats and reorders no component.
pub proof fn rows_keep_components(cs: Seq<ComponentView>)
    ensures
        all_components(action_rows(cs)) == cs,
{
    let g = gathered(cs);
    lemma_gathered(cs);
    lemma_flat_push(g.full, g.open);
    lemma_flat_rows(closed_rows(g));
    assert(g.open.len() == 0 ==> flat(g.full) + g.open =~= flat(g.full));
}

/// Every row holds one select menu, or one to five buttons.
pub proof fn rows_are_valid(cs: Seq<ComponentView>)
    ensures
        forall|i: int| 0 <= i < action_rows(cs).len() ==> valid_row(#[trigger] action_rows(cs)[i]),
{
    let g = gathered(cs);
    lemma_gathered(cs);
    assert forall|i: int| 0 <= i < action_rows(cs).len() implies valid_row(
        #[trigger] action_rows(cs)[i],
    ) by {
        if i < g.full.len() {
            assert(row_ok(g.full[i]));
            assert(action_rows(cs)[i].components == g.full[i]);
        } else {
            assert(action_rows(cs)[i].components == g.open);
        }
    }
}

} // verus!
