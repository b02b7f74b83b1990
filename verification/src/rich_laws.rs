//! What holds of blocks on their way out: what is sent for each of them, and in which order.

use crate::components;
use crate::discord_types;
use crate::discord_types::RowView;
use crate::json::Tree;
use crate::requests;
use crate::requests::{BodyView, Method, RequestView};
use crate::rich;
use crate::rich::{BlockView, FallbackView, PlanView, StepView};
use crate::text;
use crate::text_laws;
use crate::wire_laws;
use vstd::prelude::*;

verus! {

// ---------------------------------------------------------------- what is posted

/// The request posts a message with this body to the channel, in the bot's name.
pub open spec fn posts(r: RequestView, token: Seq<char>, channel: Seq<char>, body: Tree) -> bool {
    &&& r.method == Method::Post
    &&& r.url == "https://discord.com/api/v10"@ + ("/channels/"@ + channel + "/messages"@)
    &&& r.headers == seq![("Authorization"@, "Bot "@ + token)]
    &&& r.body == BodyView::Json(body)
}

/// The body holds one embed and nothing else but the text beside it, if there is one.
pub open spec fn holds_embed(body: Tree, beside: Option<Seq<char>>, embed: Tree) -> bool {
    match beside {
        Some(t) => body == Tree::Object(
            map!["embeds"@ => Tree::Array(seq![embed]), "content"@ => Tree::Str(t)],
        ),
        None => body == Tree::Object(map!["embeds"@ => Tree::Array(seq![embed])]),
    }
}

/// The object shows the parts of an embed block other than its description and fields.
pub open spec fn shows_frame(embed: Tree, b: BlockView) -> bool {
    b matches BlockView::Embed { title, description, color, fields, image_url, footer } && {
        &&& wire_laws::has_member(embed, "title"@, wire_laws::maybe_text(title))
        &&& wire_laws::has_member(embed, "color"@, wire_laws::maybe_number(color))
        &&& wire_laws::has_member(embed, "image"@, wire_laws::maybe_address(image_url))
        &&& wire_laws::has_member(embed, "thumbnail"@, None)
        &&& wire_laws::has_member(embed, "url"@, None)
        &&& wire_laws::has_member(
            embed,
            "footer"@,
            match footer {
                Some(t) => Some(Tree::Object(map!["text"@ => Tree::Str(t)])),
                None => None,
            },
        )
    }
}

/// The object shows an embed block: every part of it, and every field with its name, value and flag,
/// in the order of the block.
pub open spec fn shows_block(embed: Tree, b: BlockView) -> bool {
    b matches BlockView::Embed { title, description, color, fields, image_url, footer } && {
        &&& shows_frame(embed, b)
        &&& wire_laws::has_member(embed, "description"@, Some(Tree::Str(description)))
        &&& fields.len() == 0 ==> wire_laws::has_member(embed, "fields"@, None)
        &&& fields.len() > 0 ==> (embed.at("fields"@) matches Tree::Array(fs) && fs.len()
            == fields.len() && forall|i: int|
            0 <= i < fs.len() ==> #[trigger] fs[i] == wire_laws::field_object(
                fields[i].0,
                fields[i].1,
                fields[i].2,
            ))
    }
}

/// The step posts the embed of a block with the text beside it.
pub open spec fn posts_block(
    r: RequestView,
    token: Seq<char>,
    channel: Seq<char>,
    beside: Option<Seq<char>>,
    b: BlockView,
) -> bool {
    exists|body: Tree, embed: Tree| #[trigger]
        posts(r, token, channel, body) && #[trigger] holds_embed(body, beside, embed)
            && shows_block(embed, b)
}

proof fn lemma_embed_shown(b: BlockView)
    requires
        b is Embed,
    ensures
        shows_block(discord_types::embed_tree(rich::embed_of(b)), b),
{
    let e = rich::embed_of(b);
    wire_laws::embeds_are_written_whole(e, "title"@);
    let fields = b->fields;
    assert(e.fields.len() == fields.len());
    if fields.len() > 0 {
        wire_laws::every_field_is_written(e, 0);
    }
    let t = discord_types::embed_tree(e);
    if fields.len() > 0 {
        if let Tree::Array(fs) = t.at("fields"@) {
            assert forall|i: int| 0 <= i < fs.len() implies #[trigger] fs[i]
                == wire_laws::field_object(fields[i].0, fields[i].1, fields[i].2) by {
                wire_laws::every_field_is_written(e, i);
                assert(e.fields[i].name == fields[i].0);
            }
        }
    }
}

proof fn lemma_post(token: Seq<char>, channel: Seq<char>, body: Tree)
    ensures
        posts(requests::post_message(token, channel, body), token, channel, body),
{
}

proof fn lemma_embed_posted(
    token: Seq<char>,
    channel: Seq<char>,
    beside: Option<Seq<char>>,
    b: BlockView,
)
    requires
        b is Embed,
    ensures
        posts_block(
            requests::post_message(
                token,
                channel,
                requests::embed_body(beside, rich::embed_of(b)),
            ),
            token,
            channel,
            beside,
            b,
        ),
{
    let embed = discord_types::embed_tree(rich::embed_of(b));
    let body = requests::embed_body(beside, rich::embed_of(b));
    lemma_embed_shown(b);
    lemma_post(token, channel, body);
    assert(holds_embed(body, beside, embed));
}

/// An embed block that is sent by itself becomes one request, whose embed has exactly the fields of
/// the block, each with its name, value and flag, and all its other parts.
pub proof fn an_embed_keeps_every_field(token: Seq<char>, channel: Seq<char>, b: BlockView)
    requires
        b is Embed,
    ensures
        rich::rich_plan(token, channel, seq![b]) matches PlanView::Steps(steps) && steps.len() == 1
            && (steps[0] matches StepView::Request(r) && posts_block(r, token, channel, None, b)),
{
    let blocks = seq![b];
    assert(blocks[0] is Embed);
    assert(blocks.drop_last() =~= Seq::<BlockView>::empty());
    assert(rich::plain_texts(blocks.drop_last()) =~= Seq::<Seq<char>>::empty());
    assert(rich::companion(blocks) is None);
    assert(rich::all_embed_steps(token, channel, None, blocks.drop_last()) =~= Seq::<
        StepView,
    >::empty());
    lemma_embed_posted(token, channel, None, b);
}

// ---------------------------------------------------------------- buttons

/// The style of the button at a place: the first stands out.
pub open spec fn style_at(i: int) -> u64 {
    if i == 0 {
        1u64
    } else {
        2u64
    }
}

/// The object is the button of a block at a place.
pub open spec fn shows_button(t: Tree, button: (Seq<char>, Seq<char>), i: int) -> bool {
    t == Tree::Object(
        map![
            "type"@ => Tree::Number(Some(2u64)),
            "style"@ => Tree::Number(Some(style_at(i))),
            "label"@ => Tree::Str(button.0),
            "custom_id"@ => Tree::Str(button.1),
        ],
    )
}

/// The object is a row of the buttons from `from` on.
pub open spec fn shows_row(
    t: Tree,
    cs: Seq<Tree>,
    buttons: Seq<(Seq<char>, Seq<char>)>,
    from: int,
) -> bool {
    &&& t == Tree::Object(
        map!["type"@ => Tree::Number(Some(1u64)), "components"@ => Tree::Array(cs)],
    )
    &&& forall|j: int|
        0 <= j < cs.len() ==> shows_button(#[trigger] cs[j], buttons[from + j], from + j)
}

/// The object is a row of so many buttons from `from` on.
pub open spec fn shows_some(
    t: Tree,
    buttons: Seq<(Seq<char>, Seq<char>)>,
    from: int,
    n: int,
) -> bool {
    exists|cs: Seq<Tree>| #[trigger] shows_row(t, cs, buttons, from) && cs.len() == n
}

/// The rows show all the buttons, five to a row.
pub open spec fn shows_buttons(rows: Seq<Tree>, buttons: Seq<(Seq<char>, Seq<char>)>) -> bool {
    &&& rows.len() == (buttons.len() + 4) / 5
    &&& forall|k: int|
        0 <= k < rows.len() ==> shows_some(
            #[trigger] rows[k],
            buttons,
            5 * k,
            if 5 * k + 5 < buttons.len() {
                5
            } else {
                buttons.len() - 5 * k
            },
        )
}

/// The request posts a text with buttons below it.
pub open spec fn posts_buttons(
    r: RequestView,
    token: Seq<char>,
    channel: Seq<char>,
    content: Seq<char>,
    buttons: Seq<(Seq<char>, Seq<char>)>,
) -> bool {
    exists|rows: Seq<Tree>| #[trigger]
        shows_buttons(rows, buttons) && posts(
            r,
            token,
            channel,
            Tree::Object(map!["content"@ => Tree::Str(content), "components"@ => Tree::Array(rows)]),
        )
}

proof fn lemma_buttons_posted(
    token: Seq<char>,
    channel: Seq<char>,
    content: Seq<char>,
    buttons: Seq<(Seq<char>, Seq<char>)>,
)
    ensures
        posts_buttons(
            rich::buttons_request(token, channel, content, buttons),
            token,
            channel,
            content,
            buttons,
        ),
{
    let views = rich::button_views(buttons);
    let rows = components::action_rows(views);
    let trees = rows.map_values(|r: RowView| discord_types::row_tree(r));
    wire_laws::buttons_stand_five_to_a_row(views);
    assert forall|k: int| 0 <= k < trees.len() implies shows_some(
        #[trigger] trees[k],
        buttons,
        5 * k,
        if 5 * k + 5 < buttons.len() {
            5
        } else {
            buttons.len() - 5 * k
        },
    ) by {
        let row = rows[k];
        let cs = Seq::new(
            row.components.len(),
            |i: int| discord_types::component_tree(row.components[i]),
        );
        wire_laws::rows_are_written_whole(row);
        assert(trees[k] == discord_types::row_tree(row));
        assert forall|j: int| 0 <= j < cs.len() implies shows_button(
            #[trigger] cs[j],
            buttons[5 * k + j],
            5 * k + j,
        ) by {
            assert(row.components[j] == views[5 * k + j]);
        }
        assert(shows_row(trees[k], cs, buttons, 5 * k));
    }
    assert(shows_buttons(trees, buttons));
    lemma_post(token, channel, requests::rows_body(content, rows));
}

// ---------------------------------------------------------------- blocks sent one by one

/// The plain texts are gathered in order, and from nowhere else; they accompany an embed on lines of
/// their own.
pub proof fn plain_texts_are_gathered(a: Seq<BlockView>, b: BlockView)
    ensures
        rich::plain_texts(Seq::empty()) == Seq::<Seq<char>>::empty(),
        b matches BlockView::PlainText(t) ==> rich::plain_texts(a.push(b)) == rich::plain_texts(
            a,
        ).push(t),
        !(b is PlainText) ==> rich::plain_texts(a.push(b)) == rich::plain_texts(a),
        rich::plain_texts(a).len() == 0 ==> rich::companion(a) is None,
        rich::plain_texts(a).len() > 0 ==> rich::companion(a) == Some(
            text::joined(rich::plain_texts(a), "\n"@),
        ),
{
    assert(a.push(b).drop_last() =~= a);
}

/// Where there are embeds, and nothing that needs a layout, every embed is posted with the plain texts
/// beside it and every block of buttons with its text, one request for each, in order.
pub proof fn embeds_and_buttons_go_out_in_order(
    token: Seq<char>,
    channel: Seq<char>,
    beside: Option<Seq<char>>,
    a: Seq<BlockView>,
    b: BlockView,
)
    ensures
        ({
            let before = rich::all_embed_steps(token, channel, beside, a);
            let all = rich::all_embed_steps(token, channel, beside, a.push(b));
            let n = before.len() as int;
            &&& rich::all_embed_steps(token, channel, beside, Seq::empty()).len() == 0
            &&& all.take(n) == before
            &&& b is Embed ==> all.len() == n + 1 && (all[n] matches StepView::Request(r)
                && posts_block(r, token, channel, beside, b))
            &&& b matches BlockView::Buttons { text, buttons } ==> all.len() == n + 1 && (
            all[n] matches StepView::Request(r) && posts_buttons(r, token, channel, text, buttons))
            &&& !(b is Embed) && !(b is Buttons) ==> all.len() == n
        }),
{
    assert(a.push(b).drop_last() =~= a);
    let before = rich::all_embed_steps(token, channel, beside, a);
    let all = rich::all_embed_steps(token, channel, beside, a.push(b));
    assert(all.take(before.len() as int) =~= before);
    match b {
        BlockView::Embed { .. } => {
            lemma_embed_posted(token, channel, beside, b);
        },
        BlockView::Buttons { text, buttons } => {
            lemma_buttons_posted(token, channel, text, buttons);
        },
        _ => {},
    }
}

/// Where there are buttons and texts alone, each is sent by itself, in order.
pub proof fn buttons_and_texts_go_out_in_order(
    token: Seq<char>,
    channel: Seq<char>,
    a: Seq<BlockView>,
    b: BlockView,
)
    ensures
        ({
            let before = rich::all_button_steps(token, channel, a);
            let all = rich::all_button_steps(token, channel, a.push(b));
            let n = before.len() as int;
            &&& rich::all_button_steps(token, channel, Seq::empty()).len() == 0
            &&& all.take(n) == before
            &&& b matches BlockView::Buttons { text, buttons } ==> all.len() == n + 1 && (
            all[n] matches StepView::Request(r) && posts_buttons(r, token, channel, text, buttons))
            &&& b matches BlockView::PlainText(t) ==> all.len() == n + 1 && all[n]
                == StepView::Text(t)
            &&& !(b is PlainText) && !(b is Buttons) ==> all.len() == n
        }),
{
    assert(a.push(b).drop_last() =~= a);
    let before = rich::all_button_steps(token, channel, a);
    let all = rich::all_button_steps(token, channel, a.push(b));
    assert(all.take(before.len() as int) =~= before);
    if let BlockView::Buttons { text, buttons } = b {
        lemma_buttons_posted(token, channel, text, buttons);
    }
}

/// A gallery or a section asks for a layout of all the blocks, and so do texts alone; otherwise the
/// blocks go out one by one.
pub proof fn the_blocks_decide_how_they_go_out(
    token: Seq<char>,
    channel: Seq<char>,
    blocks: Seq<BlockView>,
)
    ensures
        ({
            let plan = rich::rich_plan(token, channel, blocks);
            let layout = exists|i: int|
                0 <= i < blocks.len() && (#[trigger] blocks[i] is ImageGallery
                    || blocks[i] is Section);
            let embed = exists|i: int| 0 <= i < blocks.len() && #[trigger] blocks[i] is Embed;
            let buttons = exists|i: int| 0 <= i < blocks.len() && #[trigger] blocks[i] is Buttons;
            &&& !layout && embed ==> plan == PlanView::Steps(
                rich::all_embed_steps(token, channel, rich::companion(blocks), blocks),
            )
            &&& !layout && !embed && buttons ==> plan == PlanView::Steps(
                rich::all_button_steps(token, channel, blocks),
            )
            &&& layout || (!embed && !buttons) ==> (plan matches PlanView::Layout(r) && posts(
                r,
                token,
                channel,
                Tree::Object(
                    map![
                        "flags"@ => Tree::Number(Some(32768u64)),
                        "components"@ => Tree::Array(rich::all_parts(blocks)),
                    ],
                ),
            ))
        }),
{
    lemma_post(token, channel, requests::v2_body(rich::all_parts(blocks)));
}

// ---------------------------------------------------------------- layouts

/// The object shows a text.
pub open spec fn text_object(content: Seq<char>) -> Tree {
    Tree::Object(map!["type"@ => Tree::Number(Some(10u64)), "content"@ => Tree::Str(content)])
}

/// The object shows an address of media.
pub open spec fn media_object(url: Seq<char>) -> Tree {
    Tree::Object(map!["url"@ => Tree::Str(url)])
}

/// The object shows an image of a gallery, with its caption if it has one.
pub open spec fn image_object(image: (Seq<char>, Option<Seq<char>>)) -> Tree {
    match image.1 {
        Some(c) => Tree::Object(
            map!["media"@ => media_object(image.0), "description"@ => Tree::Str(c)],
        ),
        None => Tree::Object(map!["media"@ => media_object(image.0)]),
    }
}

/// The object shows a gallery.
pub open spec fn gallery_object(items: Seq<Tree>) -> Tree {
    Tree::Object(map!["type"@ => Tree::Number(Some(12u64)), "items"@ => Tree::Array(items)])
}

/// The lines tell of the fields, one for each.
pub open spec fn tells_fields(
    lines: Seq<Seq<char>>,
    fields: Seq<(Seq<char>, Seq<char>, bool)>,
) -> bool {
    lines.len() == fields.len() && forall|i: int|
        0 <= i < lines.len() ==> #[trigger] lines[i] == "**"@ + fields[i].0 + ":** "@ + fields[i].1
            + "\n"@
}

/// The text tells of an embed: its title as a heading, its description, a line for every field, and
/// its footer in small print.
pub open spec fn tells_embed(
    content: Seq<char>,
    title: Option<Seq<char>>,
    description: Seq<char>,
    fields: Seq<(Seq<char>, Seq<char>, bool)>,
    footer: Option<Seq<char>>,
) -> bool {
    let head = match title {
        Some(t) => "### "@ + t + "\n"@,
        None => Seq::empty(),
    };
    let foot = match footer {
        Some(t) => "\n-# "@ + t,
        None => Seq::empty(),
    };
    exists|lines: Seq<Seq<char>>| #[trigger]
        tells_fields(lines, fields) && content == head + description + (if fields.len() == 0 {
            Seq::empty()
        } else {
            "\n\n"@ + text::joined(lines, Seq::empty())
        }) + foot
}

proof fn lemma_field_lines(fields: Seq<(Seq<char>, Seq<char>, bool)>) -> (lines: Seq<Seq<char>>)
    ensures
        tells_fields(lines, fields),
        text::joined(lines, Seq::empty()) == rich::field_lines(fields),
    decreases fields.len(),
{
    if fields.len() == 0 {
        Seq::empty()
    } else {
        let front = lemma_field_lines(fields.drop_last());
        let f = fields.last();
        let line = "**"@ + f.0 + ":** "@ + f.1 + "\n"@;
        let lines = front.push(line);
        text_laws::joining_is_part_by_part(front, Seq::empty(), line);
        assert forall|i: int| 0 <= i < lines.len() implies #[trigger] lines[i] == "**"@
            + fields[i].0 + ":** "@ + fields[i].1 + "\n"@ by {
            if i < front.len() {
                assert(front[i] == lines[i]);
            }
        }
        let before = rich::field_lines(fields.drop_last());
        assert(rich::field_lines(fields) =~= before + line);
        if front.len() == 0 {
            assert(lines =~= seq![line]);
            assert(before =~= Seq::<char>::empty());
            assert(before + line =~= line);
        } else {
            assert(text::joined(front, Seq::empty()) + Seq::<char>::empty() + line =~= before + line);
        }
        lines
    }
}

/// Laid out, the blocks stand one behind the other.
pub proof fn laid_out_blocks_follow_one_another(a: Seq<BlockView>, b: BlockView)
    ensures
        rich::all_parts(Seq::empty()).len() == 0,
        rich::all_parts(a.push(b)) == rich::all_parts(a) + rich::all_parts(seq![b]),
{
    assert(a.push(b).drop_last() =~= a);
    assert(seq![b].drop_last() =~= Seq::<BlockView>::empty());
    reveal_with_fuel(rich::all_parts, 2);
    assert(rich::all_parts(seq![b]) =~= rich::block_parts(b));
}

proof fn lemma_one_block(b: BlockView)
    ensures
        rich::all_parts(seq![b]) == rich::block_parts(b),
{
    assert(seq![b].drop_last() =~= Seq::<BlockView>::empty());
    reveal_with_fuel(rich::all_parts, 2);
    assert(rich::all_parts(seq![b]) =~= rich::block_parts(b));
}

/// Laid out, a text is itself, unless it is blank; a gallery shows every image with its caption; a
/// section is a text with its thumbnail, if there is one.
pub proof fn texts_and_images_are_laid_out(
    content: Seq<char>,
    images: Seq<(Seq<char>, Option<Seq<char>>)>,
    thumbnail: Option<Seq<char>>,
)
    ensures
        text_laws::all_white(content) ==> rich::all_parts(seq![BlockView::PlainText(content)]).len()
            == 0,
        !text_laws::all_white(content) ==> rich::all_parts(seq![BlockView::PlainText(content)])
            == seq![text_object(content)],
        rich::all_parts(seq![BlockView::ImageGallery { images }]) == seq![
            gallery_object(Seq::new(images.len(), |i: int| image_object(images[i]))),
        ],
        rich::all_parts(seq![BlockView::Section { text: content, thumbnail_url: thumbnail }])
            == seq![
            match thumbnail {
                Some(u) => Tree::Object(
                    map![
                        "type"@ => Tree::Number(Some(9u64)),
                        "components"@ => Tree::Array(seq![text_object(content)]),
                        "accessory"@ => Tree::Object(
                            map![
                                "type"@ => Tree::Number(Some(11u64)),
                                "media"@ => media_object(u),
                            ],
                        ),
                    ],
                ),
                None => Tree::Object(
                    map![
                        "type"@ => Tree::Number(Some(9u64)),
                        "components"@ => Tree::Array(seq![text_object(content)]),
                    ],
                ),
            },
        ],
{
    let p = text_laws::trimmed_text_stands_in_the_text(content);
    lemma_one_block(BlockView::PlainText(content));
    lemma_one_block(BlockView::ImageGallery { images });
    lemma_one_block(BlockView::Section { text: content, thumbnail_url: thumbnail });
    assert(images.map_values(|i: (Seq<char>, Option<Seq<char>>)| rich::image_item(i)) =~= Seq::new(
        images.len(),
        |i: int| image_object(images[i]),
    ));
}

/// Laid out, buttons stand in one row, all of them, below their text, unless that is blank.
pub proof fn buttons_are_laid_out(content: Seq<char>, buttons: Seq<(Seq<char>, Seq<char>)>)
    ensures
        ({
            let parts = rich::all_parts(seq![BlockView::Buttons { text: content, buttons }]);
            let n: int = if text_laws::all_white(content) {
                0
            } else {
                1
            };
            &&& parts.len() == n + 1
            &&& !text_laws::all_white(content) ==> parts[0] == text_object(content)
            &&& shows_some(parts[n], buttons, 0, buttons.len() as int)
        }),
{
    let p = text_laws::trimmed_text_stands_in_the_text(content);
    lemma_one_block(BlockView::Buttons { text: content, buttons });
    let cs = Seq::new(buttons.len(), |i: int| rich::button_part(i, buttons[i]));
    let row = rich::buttons_part(buttons);
    assert forall|j: int| 0 <= j < cs.len() implies shows_button(
        #[trigger] cs[j],
        buttons[0 + j],
        0 + j,
    ) by {}
    assert(shows_row(row, cs, buttons, 0));
}

/// Laid out, an embed is a frame in its color, or in Discord's own, around a text that tells of all
/// its parts, with its image below, if there is one.
pub proof fn embeds_are_laid_out(
    title: Option<Seq<char>>,
    description: Seq<char>,
    color: Option<u32>,
    fields: Seq<(Seq<char>, Seq<char>, bool)>,
    image_url: Option<Seq<char>>,
    footer: Option<Seq<char>>,
) -> (content: Seq<char>)
    ensures
        tells_embed(content, title, description, fields, footer),
        ({
            let b = BlockView::Embed { title, description, color, fields, image_url, footer };
            let inner = match image_url {
                Some(u) => seq![
                    text_object(content),
                    gallery_object(seq![image_object((u, None))]),
                ],
                None => seq![text_object(content)],
            };
            rich::all_parts(seq![b]) == seq![
                Tree::Object(
                    map![
                        "type"@ => Tree::Number(Some(17u64)),
                        "accent_color"@ => Tree::Number(
                            Some(
                                match color {
                                    Some(c) => c as u64,
                                    None => 0x5865F2u64,
                                },
                            ),
                        ),
                        "components"@ => Tree::Array(inner),
                    ],
                ),
            ]
        }),
{
    let b = BlockView::Embed { title, description, color, fields, image_url, footer };
    lemma_one_block(b);
    let content = rich::embed_text(title, description, fields, footer);
    let lines = lemma_field_lines(fields);
    assert(tells_embed(content, title, description, fields, footer));
    let inner = seq![rich::text_part(content)] + (match image_url {
        Some(u) => seq![rich::gallery_part(seq![rich::gallery_item(u)])],
        None => Seq::empty(),
    });
    match image_url {
        Some(u) => {
            assert(inner =~= seq![
                text_object(content),
                gallery_object(seq![image_object((u, None))]),
            ]);
        },
        None => {
            assert(inner =~= seq![text_object(content)]);
        },
    }
    content
}

// ---------------------------------------------------------------- after a layout has failed

/// The text is the given one if that takes no more bytes than the limit; else its longest beginning
/// that takes no more bytes than the cut, with dots behind it.
pub open spec fn cut_down(out: Seq<char>, s: Seq<char>, limit: nat, cut: nat) -> bool {
    &&& text::byte_len(s) <= limit ==> out == s
    &&& text::byte_len(s) > limit ==> exists|k: int|
        0 <= k < s.len() && out == #[trigger] s.take(k) + "..."@ && text::byte_len(s.take(k))
            <= cut && text::byte_len(s.take(k + 1)) > cut
}

/// The object shows a field of a block, cut down.
pub open spec fn shows_short_field(t: Tree, f: (Seq<char>, Seq<char>, bool)) -> bool {
    exists|name: Seq<char>, value: Seq<char>|
        t == #[trigger] wire_laws::field_object(name, value, f.2) && cut_down(name, f.0, 256, 253)
            && cut_down(value, f.1, 1024, 1021)
}

/// The object shows an embed block, cut down: the description, and the first twenty-five fields.
pub open spec fn shows_short_block(embed: Tree, b: BlockView) -> bool {
    b matches BlockView::Embed { title, description, color, fields, image_url, footer } && {
        &&& shows_frame(embed, b)
        &&& embed.at("description"@) matches Tree::Str(d) && cut_down(d, description, 4096, 4090)
        &&& fields.len() == 0 ==> wire_laws::has_member(embed, "fields"@, None)
        &&& fields.len() > 0 ==> (embed.at("fields"@) matches Tree::Array(fs) && fs.len() == (
        if fields.len() < 25 {
            fields.len()
        } else {
            25
        }) && forall|i: int|
            0 <= i < fs.len() ==> shows_short_field(#[trigger] fs[i], fields[i]))
    }
}

proof fn lemma_cut_down(s: Seq<char>, limit: nat, cut: nat)
    requires
        cut <= limit,
    ensures
        cut_down(rich::shortened(s, limit, cut), s, limit, cut),
{
    if text::byte_len(s) > limit {
        text_laws::what_fits_is_the_longest_beginning(s, cut);
        let head = text::within_bytes(s, cut);
        let k = head.len() as int;
        assert(s.take(k) =~= head);
        assert(s.subrange(0, k) =~= head);
        text::byte_len_is_utf8_len(head);
        if k < s.len() {
            assert(s.subrange(0, k + 1) =~= s.take(k + 1));
            text::byte_len_is_utf8_len(s.take(k + 1));
        }
        assert(s.take(s.len() as int) =~= s);
        assert(s.take(k) + "..."@ == rich::shortened(s, limit, cut));
    }
}

proof fn lemma_short_embed_shown(b: BlockView)
    requires
        b is Embed,
    ensures
        shows_short_block(discord_types::embed_tree(rich::short_embed(b)), b),
{
    let e = rich::short_embed(b);
    wire_laws::embeds_are_written_whole(e, "title"@);
    let fields = b->fields;
    lemma_cut_down(b->description, 4096, 4090);
    let first = rich::first_fields(fields);
    let t = discord_types::embed_tree(e);
    if fields.len() > 0 {
        wire_laws::every_field_is_written(e, 0);
        if let Tree::Array(fs) = t.at("fields"@) {
            assert forall|i: int| 0 <= i < fs.len() implies shows_short_field(
                #[trigger] fs[i],
                fields[i],
            ) by {
                wire_laws::every_field_is_written(e, i);
                assert(first[i] == fields[i]);
                assert(e.fields[i] == rich::short_field(fields[i]));
                lemma_cut_down(fields[i].0, 256, 253);
                lemma_cut_down(fields[i].1, 1024, 1021);
                assert(fs[i] == wire_laws::field_object(
                    e.fields[i].name,
                    e.fields[i].value,
                    fields[i].2,
                ));
            }
        }
    }
}

/// The text is short enough, or a character ends where it is cut off.
pub open spec fn cuts_well(s: Seq<char>, limit: nat, cut: nat) -> bool {
    vstd::utf8::encode_utf8(s).len() > limit ==> text::on_boundary(s, cut)
}

/// A block can be cut down if its description and its first twenty-five fields can, each in name and
/// value; blocks other than embeds always can.
pub proof fn blocks_are_cut_between_characters(b: BlockView, blocks: Seq<BlockView>)
    ensures
        !(b is Embed) ==> rich::block_cuts(b),
        b matches BlockView::Embed { title, description, color, fields, image_url, footer } ==> (
        rich::block_cuts(b) <==> cuts_well(description, 4096, 4090) && forall|i: int|
            0 <= i < fields.len() && i < 25 ==> cuts_well((#[trigger] fields[i]).0, 256, 253)
                && cuts_well(fields[i].1, 1024, 1021)),
        rich::blocks_cut(blocks) <==> forall|i: int|
            0 <= i < blocks.len() ==> rich::block_cuts(#[trigger] blocks[i]),
{
    if let BlockView::Embed { description, fields, .. } = b {
        text::byte_len_is_utf8_len(description);
        let first = rich::first_fields(fields);
        assert forall|i: int| 0 <= i < fields.len() && i < 25 implies rich::field_cuts(first[i]) == (
        cuts_well((#[trigger] fields[i]).0, 256, 253) && cuts_well(fields[i].1, 1024, 1021)) by {
            assert(first[i] == fields[i]);
            text::byte_len_is_utf8_len(fields[i].0);
            text::byte_len_is_utf8_len(fields[i].1);
        }
        if rich::block_cuts(b) {
            assert forall|i: int| 0 <= i < fields.len() && i < 25 implies cuts_well(
                (#[trigger] fields[i]).0,
                256,
                253,
            ) && cuts_well(fields[i].1, 1024, 1021) by {
                assert(rich::field_cuts(first[i]));
            }
        }
        if cuts_well(description, 4096, 4090) && forall|i: int|
            0 <= i < fields.len() && i < 25 ==> cuts_well((#[trigger] fields[i]).0, 256, 253)
                && cuts_well(fields[i].1, 1024, 1021) {
            assert forall|i: int| 0 <= i < first.len() implies rich::field_cuts(
                #[trigger] first[i],
            ) by {
                assert(cuts_well(fields[i].0, 256, 253));
            }
        }
    }
}

/// The request posts the embed of a block by itself, cut down.
pub open spec fn posts_short_block(
    r: RequestView,
    token: Seq<char>,
    channel: Seq<char>,
    b: BlockView,
) -> bool {
    exists|body: Tree, embed: Tree| #[trigger]
        posts(r, token, channel, body) && #[trigger] holds_embed(body, None, embed)
            && shows_short_block(embed, b)
}

/// After a layout has failed every block is sent by itself, in order: an embed cut down to what is
/// taken, a text that is not blank in chunks, buttons with their text. Galleries and sections are not.
pub proof fn blocks_are_sent_by_themselves(
    token: Seq<char>,
    channel: Seq<char>,
    a: Seq<BlockView>,
    b: BlockView,
)
    ensures
        ({
            let before = rich::fallback(token, channel, a);
            let all = rich::fallback(token, channel, a.push(b));
            let one = rich::block_fallback(token, channel, b);
            let n = before.len() as int;
            &&& rich::fallback(token, channel, Seq::empty()).len() == 0
            &&& all == before + one
            &&& b is Embed ==> one.len() == 1 && (one[0] matches FallbackView::Embed(r)
                && posts_short_block(r, token, channel, b))
            &&& b matches BlockView::Buttons { text, buttons } ==> one.len() == 1 && (
            one[0] matches FallbackView::Buttons(r) && posts_buttons(
                r,
                token,
                channel,
                text,
                buttons,
            ))
            &&& b matches BlockView::PlainText(t) ==> text_laws::all_white(t) ==> one.len() == 0
            &&& b matches BlockView::PlainText(t) ==> !text_laws::all_white(t) ==> one.len()
                == rich::text_chunks(t).len() && forall|i: int|
                0 <= i < one.len() ==> #[trigger] one[i] == FallbackView::Text(
                    rich::text_chunks(t)[i],
                )
            &&& b is ImageGallery || b is Section ==> one.len() == 0
        }),
{
    assert(a.push(b).drop_last() =~= a);
    match b {
        BlockView::Embed { .. } => {
            let embed = discord_types::embed_tree(rich::short_embed(b));
            let body = requests::embed_body(None, rich::short_embed(b));
            lemma_short_embed_shown(b);
            lemma_post(token, channel, body);
            assert(holds_embed(body, None, embed));
        },
        BlockView::Buttons { text, buttons } => {
            lemma_buttons_posted(token, channel, text, buttons);
        },
        BlockView::PlainText(t) => {
            let p = text_laws::trimmed_text_stands_in_the_text(t);
        },
        _ => {},
    }
}

/// A text that fits into a message is one chunk, and the empty text is none. Of a longer text the
/// first chunk ends behind the last line feed that fits; without one it is as long as fits. The rest
/// is cut in turn.
pub proof fn chunks_end_with_lines(s: Seq<char>)
    ensures
        s.len() == 0 ==> rich::text_chunks(s).len() == 0,
        s.len() > 0 && text::byte_len(s) <= 2000 ==> rich::text_chunks(s) == seq![s],
        text::byte_len(s) > 2000 ==> {
            let chunks = rich::text_chunks(s);
            let n = chunks[0].len() as int;
            let head = text::within_bytes(s, 2000);
            &&& chunks.len() > 0
            &&& 0 < n <= head.len() <= s.len()
            &&& chunks[0] == s.take(n)
            &&& chunks.skip(1) == rich::text_chunks(s.skip(n))
            &&& head.contains('\n') ==> head[n - 1] == '\n' && !head.skip(n).contains('\n')
            &&& !head.contains('\n') ==> n == head.len()
        },
{
    if s.len() > 0 {
        rich::lemma_chunk_len(s);
    }
    let n = rich::chunk_len(s);
    if s.len() > 0 && text::byte_len(s) <= 2000 {
        assert(s.take(n) =~= s);
        assert(s.skip(n) =~= Seq::<char>::empty());
        reveal_with_fuel(rich::text_chunks, 2);
        assert(rich::text_chunks(s) =~= seq![s]);
    }
    if text::byte_len(s) > 2000 {
        let head = text::within_bytes(s, 2000);
        text_laws::what_fits_is_the_longest_beginning(s, 2000);
        text_laws::the_last_character_is_found(head, '\n');
        assert(rich::text_chunks(s).skip(1) =~= rich::text_chunks(s.skip(n)));
        if head.contains('\n') {
            let j = choose|j: int| 0 <= j < head.len() && head[j] == '\n';
            assert(text::rfind(head, '\n') is Some);
            if head.skip(n).contains('\n') {
                let i = choose|i: int| 0 <= i < head.skip(n).len() && head.skip(n)[i] == '\n';
                assert(head[n + i] == '\n');
            }
        } else {
            if let Some(i) = text::rfind(head, '\n') {
                assert(head[i] == '\n');
            }
        }
    }
}

/// The text goes out, in chunks, if and only if nothing else counts as sent: a text or buttons count
/// in any case, an embed only if it did not fail.
pub proof fn the_text_goes_out_for_want_of_anything_else(
    steps: Seq<FallbackView>,
    outcomes: Seq<bool>,
    content: Seq<char>,
)
    ensures
        (forall|i: int| 0 <= i < steps.len() ==> #[trigger] steps[i] is Embed && !outcomes[i])
            ==> rich::last_resort(steps, outcomes, content) == rich::text_chunks(content),
        (exists|i: int| 0 <= i < steps.len() && (!(#[trigger] steps[i] is Embed) || outcomes[i]))
            ==> rich::last_resort(steps, outcomes, content).len() == 0,
{
}

} // verus!
