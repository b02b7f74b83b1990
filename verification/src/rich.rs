//! Rich output: blocks as embeds, action rows or components of the second version, with fallbacks.

use crate::adapter::DiscordAdapter;
use crate::components;
use crate::discord_types;
use crate::discord_types::{
    ComponentView, DiscordEmbed, EmbedField, EmbedFooter, EmbedMedia, EmbedView, FieldView,
    FooterView,
};
use crate::json;
use crate::json::{Json, Tree};
use crate::requests;
use crate::requests::{ApiRequest, RequestView};
use crate::text;
use crate::types::{MessageComponent, RichBlock};
use vstd::prelude::*;
use vstd::slice::slice_subrange;

verus! {

// ---------------------------------------------------------------- blocks

/// What a block holds.
pub enum BlockView {
    Embed {
        title: Option<Seq<char>>,
        description: Seq<char>,
        color: Option<u32>,
        fields: Seq<(Seq<char>, Seq<char>, bool)>,
        image_url: Option<Seq<char>>,
        footer: Option<Seq<char>>,
    },
    Buttons { text: Seq<char>, buttons: Seq<(Seq<char>, Seq<char>)> },
    PlainText(Seq<char>),
    ImageGallery { images: Seq<(Seq<char>, Option<Seq<char>>)> },
    Section { text: Seq<char>, thumbnail_url: Option<Seq<char>> },
}

/// What the fields of a block hold.
pub open spec fn block_fields(fields: Seq<(String, String, bool)>) -> Seq<
    (Seq<char>, Seq<char>, bool),
> {
    fields.map_values(|f: (String, String, bool)| (f.0@, f.1@, f.2))
}

/// What the buttons of a block hold.
pub open spec fn block_buttons(buttons: Seq<(String, String)>) -> Seq<(Seq<char>, Seq<char>)> {
    buttons.map_values(|b: (String, String)| (b.0@, b.1@))
}

/// What the images of a block hold.
pub open spec fn block_images(images: Seq<(String, Option<String>)>) -> Seq<
    (Seq<char>, Option<Seq<char>>),
> {
    images.map_values(|i: (String, Option<String>)| (i.0@, text::opt_text(i.1)))
}

impl View for RichBlock {
    type V = BlockView;

    open spec fn view(&self) -> BlockView {
        match *self {
            RichBlock::Embed { title, description, color, fields, image_url, footer } =>
                BlockView::Embed {
                title: text::opt_text(title),
                description: description@,
                color,
                fields: block_fields(fields@),
                image_url: text::opt_text(image_url),
                footer: text::opt_text(footer),
            },
            RichBlock::Buttons { text, buttons } => BlockView::Buttons {
                text: text@,
                buttons: block_buttons(buttons@),
            },
            RichBlock::PlainText(t) => BlockView::PlainText(t@),
            RichBlock::ImageGallery { images } => BlockView::ImageGallery {
                images: block_images(images@),
            },
            RichBlock::Section { text, thumbnail_url } => BlockView::Section {
                text: text@,
                thumbnail_url: text::opt_text(thumbnail_url),
            },
        }
    }
}

/// What a list of blocks holds.
pub open spec fn block_views(blocks: Seq<RichBlock>) -> Seq<BlockView> {
    blocks.map_values(|b: RichBlock| b@)
}

/// There is an embed among the blocks.
pub open spec fn has_embed(blocks: Seq<BlockView>) -> bool {
    exists|i: int| 0 <= i < blocks.len() && #[trigger] blocks[i] is Embed
}

/// There are buttons among the blocks.
pub open spec fn has_buttons(blocks: Seq<BlockView>) -> bool {
    exists|i: int| 0 <= i < blocks.len() && #[trigger] blocks[i] is Buttons
}

/// There is a gallery or a section among the blocks.
pub open spec fn has_layout(blocks: Seq<BlockView>) -> bool {
    exists|i: int|
        0 <= i < blocks.len() && (#[trigger] blocks[i] is ImageGallery || blocks[i] is Section)
}

/// The plain texts among the blocks.
pub open spec fn plain_texts(blocks: Seq<BlockView>) -> Seq<Seq<char>>
    decreases blocks.len(),
{
    if blocks.len() == 0 {
        Seq::empty()
    } else {
        match blocks.last() {
            BlockView::PlainText(t) => plain_texts(blocks.drop_last()).push(t),
            _ => plain_texts(blocks.drop_last()),
        }
    }
}

/// The text that accompanies each embed: the plain texts, one per line.
pub open spec fn companion(blocks: Seq<BlockView>) -> Option<Seq<char>> {
    if plain_texts(blocks).len() == 0 {
        None
    } else {
        Some(text::joined(plain_texts(blocks), "\n"@))
    }
}

// ---------------------------------------------------------------- embeds

/// The fields of an embed, as Discord takes them.
pub open spec fn embed_fields(fields: Seq<(Seq<char>, Seq<char>, bool)>) -> Seq<FieldView> {
    fields.map_values(
        |f: (Seq<char>, Seq<char>, bool)|
            FieldView { name: f.0, value: f.1, inline: Some(f.2) },
    )
}

/// The footer of an embed, as Discord takes it.
pub open spec fn embed_footer(footer: Option<Seq<char>>) -> Option<FooterView> {
    match footer {
        Some(t) => Some(FooterView { text: t, icon_url: None }),
        None => None,
    }
}

/// A block that is an embed, as Discord takes it.
pub open spec fn embed_of(b: BlockView) -> EmbedView {
    match b {
        BlockView::Embed { title, description, color, fields, image_url, footer } => EmbedView {
            title,
            description: Some(description),
            color,
            fields: embed_fields(fields),
            image: image_url,
            footer: embed_footer(footer),
            ..discord_types::empty_embed()
        },
        _ => discord_types::empty_embed(),
    }
}

/// The text, cut off after `cut` bytes if it takes more than `limit`.
pub open spec fn shortened(s: Seq<char>, limit: nat, cut: nat) -> Seq<char> {
    if text::byte_len(s) > limit {
        text::within_bytes(s, cut) + "..."@
    } else {
        s
    }
}

/// The text can be cut off after `cut` bytes if it takes more than `limit`.
pub open spec fn cuts(s: Seq<char>, limit: nat, cut: nat) -> bool {
    text::byte_len(s) > limit ==> text::on_boundary(s, cut)
}

/// The most fields that an embed may have.
pub const FIELD_LIMIT: usize = 25;

/// The fields that an embed may have.
pub open spec fn first_fields(fields: Seq<(Seq<char>, Seq<char>, bool)>) -> Seq<
    (Seq<char>, Seq<char>, bool),
> {
    if fields.len() > FIELD_LIMIT {
        fields.take(FIELD_LIMIT as int)
    } else {
        fields
    }
}

/// A field, within what Discord takes.
pub open spec fn short_field(f: (Seq<char>, Seq<char>, bool)) -> FieldView {
    FieldView {
        name: shortened(f.0, 256, 253),
        value: shortened(f.1, 1024, 1021),
        inline: Some(f.2),
    }
}

/// A block that is an embed, within what Discord takes.
pub open spec fn short_embed(b: BlockView) -> EmbedView {
    match b {
        BlockView::Embed { title, description, color, fields, image_url, footer } => EmbedView {
            title,
            description: Some(shortened(description, 4096, 4090)),
            color,
            fields: first_fields(fields).map_values(
                |f: (Seq<char>, Seq<char>, bool)| short_field(f),
            ),
            image: image_url,
            footer: embed_footer(footer),
            ..discord_types::empty_embed()
        },
        _ => discord_types::empty_embed(),
    }
}

/// A field can be brought within what Discord takes.
pub open spec fn field_cuts(f: (Seq<char>, Seq<char>, bool)) -> bool {
    cuts(f.0, 256, 253) && cuts(f.1, 1024, 1021)
}

/// A block can be brought within what Discord takes: where a text of it is too long, the cut falls
/// between two characters.
pub open spec fn block_cuts(b: BlockView) -> bool {
    match b {
        BlockView::Embed { description, fields, .. } => cuts(description, 4096, 4090) && forall|
            i: int,
        |
            0 <= i < first_fields(fields).len() ==> field_cuts(#[trigger] first_fields(fields)[i]),
        _ => true,
    }
}

/// All blocks can be brought within what Discord takes.
pub open spec fn blocks_cut(blocks: Seq<BlockView>) -> bool {
    forall|i: int| 0 <= i < blocks.len() ==> block_cuts(#[trigger] blocks[i])
}

fn shorten(s: &str, limit: usize, cut: usize) -> (r: String)
    requires
        cuts(s@, limit as nat, cut as nat),
    ensures
        r@ == shortened(s@, limit as nat, cut as nat),
{
    let chars = text::chars_of(s);
    if text::longer_than(chars.as_slice(), limit) {
        let n: usize = text::count_within(chars.as_slice(), cut);
        let mut out = text::string_of(slice_subrange(chars.as_slice(), 0, n));
        assert(chars@.subrange(0, n as int) =~= chars@.take(n as int));
        out.append("...");
        out
    } else {
        s.to_string()
    }
}

fn can_cut(s: &str, limit: usize, cut: usize) -> (r: bool)
    ensures
        r == cuts(s@, limit as nat, cut as nat),
{
    let chars = text::chars_of(s);
    !text::longer_than(chars.as_slice(), limit) || text::boundary(chars.as_slice(), cut)
}

/// Whether a block can be brought within what Discord takes.
pub fn can_shorten_block(block: &RichBlock) -> (r: bool)
    ensures
        r == block_cuts(block@),
{
    if let RichBlock::Embed { description, fields, .. } = block {
        if !can_cut(description.as_str(), 4096, 4090) {
            return false;
        }
        let ghost first = first_fields(block_fields(fields@));
        let mut k: usize = 0;
        while k < fields.len() && k < FIELD_LIMIT
            invariant
                k <= fields@.len(),
                k <= FIELD_LIMIT,
                block@ matches BlockView::Embed { fields: fs, .. } && fs == block_fields(fields@),
                first == first_fields(block_fields(fields@)),
                forall|j: int| 0 <= j < k ==> field_cuts(#[trigger] first[j]),
            decreases fields@.len() - k,
        {
            assert(first[k as int] == (fields@[k as int].0@, fields@[k as int].1@, fields@[
                k as int].2));
            let f = &fields[k];
            if !can_cut(f.0.as_str(), 256, 253) || !can_cut(f.1.as_str(), 1024, 1021) {
                assert(!field_cuts(first[k as int]));
                return false;
            }
            k += 1;
        }
    }
    true
}

/// Whether all blocks can be brought within what Discord takes.
pub fn can_shorten(blocks: &Vec<RichBlock>) -> (r: bool)
    ensures
        r == blocks_cut(block_views(blocks@)),
{
    let ghost views = block_views(blocks@);
    let mut i: usize = 0;
    while i < blocks.len()
        invariant
            i <= blocks@.len(),
            views == block_views(blocks@),
            forall|k: int| 0 <= k < i ==> block_cuts(#[trigger] views[k]),
        decreases blocks@.len() - i,
    {
        assert(views[i as int] == blocks@[i as int]@);
        if !can_shorten_block(&blocks[i]) {
            return false;
        }
        i += 1;
    }
    true
}

fn fields_for(fields: &Vec<(String, String, bool)>) -> (r: Vec<EmbedField>)
    ensures
        discord_types::field_views(r@) == embed_fields(block_fields(fields@)),
{
    let mut out: Vec<EmbedField> = Vec::new();
    let mut i: usize = 0;
    let ghost want = embed_fields(block_fields(fields@));
    assert(discord_types::field_views(out@) =~= want.take(0));
    while i < fields.len()
        invariant
            i <= fields@.len(),
            want == embed_fields(block_fields(fields@)),
            discord_types::field_views(out@) == want.take(i as int),
        decreases fields@.len() - i,
    {
        let f = &fields[i];
        let field = EmbedField { name: f.0.clone(), value: f.1.clone(), inline: Some(f.2) };
        proof {
            assert(discord_types::field_views(out@.push(field)) =~= discord_types::field_views(
                out@,
            ).push(field@));
            assert(want.take(i + 1) =~= want.take(i as int).push(want[i as int]));
        }
        out.push(field);
        i += 1;
    }
    assert(want.take(want.len() as int) =~= want);
    out
}

fn short_fields_for(fields: &Vec<(String, String, bool)>) -> (r: Vec<EmbedField>)
    requires
        forall|i: int|
            0 <= i < first_fields(block_fields(fields@)).len() ==> field_cuts(
                #[trigger] first_fields(block_fields(fields@))[i],
            ),
    ensures
        discord_types::field_views(r@) == first_fields(block_fields(fields@)).map_values(
            |f: (Seq<char>, Seq<char>, bool)| short_field(f),
        ),
{
    let mut out: Vec<EmbedField> = Vec::new();
    let mut i: usize = 0;
    let ghost first = first_fields(block_fields(fields@));
    let ghost want = first.map_values(|f: (Seq<char>, Seq<char>, bool)| short_field(f));
    assert(discord_types::field_views(out@) =~= want.take(0));
    while i < fields.len() && i < FIELD_LIMIT
        invariant
            i <= fields@.len(),
            i <= FIELD_LIMIT,
            first == first_fields(block_fields(fields@)),
            want == first.map_values(|f: (Seq<char>, Seq<char>, bool)| short_field(f)),
            forall|k: int| 0 <= k < first.len() ==> field_cuts(#[trigger] first[k]),
            discord_types::field_views(out@) == want.take(i as int),
        decreases fields@.len() - i,
    {
        let f = &fields[i];
        assert(first[i as int] == (f.0@, f.1@, f.2));
        let field = EmbedField {
            name: shorten(f.0.as_str(), 256, 253),
            value: shorten(f.1.as_str(), 1024, 1021),
            inline: Some(f.2),
        };
        proof {
            assert(field@ == short_field(first[i as int]));
            assert(discord_types::field_views(out@.push(field)) =~= discord_types::field_views(
                out@,
            ).push(field@));
            assert(want.take(i + 1) =~= want.take(i as int).push(want[i as int]));
        }
        out.push(field);
        i += 1;
    }
    assert(want.take(want.len() as int) =~= want);
    out
}

fn media_for(url: &Option<String>) -> (r: Option<EmbedMedia>)
    ensures
        discord_types::media_url(r) == text::opt_text(*url),
{
    match url {
        Some(u) => Some(EmbedMedia { url: u.clone() }),
        None => None,
    }
}

fn footer_for(footer: &Option<String>) -> (r: Option<EmbedFooter>)
    ensures
        (match r {
            Some(f) => Some(f@),
            None => None,
        }) == embed_footer(text::opt_text(*footer)),
{
    match footer {
        Some(t) => Some(EmbedFooter { text: t.clone(), icon_url: None }),
        None => None,
    }
}

// ---------------------------------------------------------------- buttons

/// The style of a button: the first is primary, the others are secondary.
pub open spec fn button_style(i: int) -> u8 {
    if i == 0 {
        1
    } else {
        2
    }
}

/// Buttons as Discord takes them.
pub open spec fn button_views(buttons: Seq<(Seq<char>, Seq<char>)>) -> Seq<ComponentView> {
    Seq::new(
        buttons.len(),
        |i: int|
            ComponentView::Button {
                component_type: 2,
                style: button_style(i),
                label: buttons[i].0,
                custom_id: buttons[i].1,
            },
    )
}

/// The request that sends a text with buttons.
pub open spec fn buttons_request(
    token: Seq<char>,
    channel_id: Seq<char>,
    content: Seq<char>,
    buttons: Seq<(Seq<char>, Seq<char>)>,
) -> RequestView {
    requests::post_message(
        token,
        channel_id,
        requests::rows_body(content, components::action_rows(button_views(buttons))),
    )
}

fn buttons_for(buttons: &Vec<(String, String)>) -> (r: Vec<MessageComponent>)
    ensures
        components::discord_components(r@) == button_views(block_buttons(buttons@)),
{
    let mut out: Vec<MessageComponent> = Vec::new();
    let mut i: usize = 0;
    let ghost want = button_views(block_buttons(buttons@));
    assert(components::discord_components(out@) =~= want.take(0));
    while i < buttons.len()
        invariant
            i <= buttons@.len(),
            want == button_views(block_buttons(buttons@)),
            components::discord_components(out@) == want.take(i as int),
        decreases buttons@.len() - i,
    {
        let b = &buttons[i];
        let button = MessageComponent::Button {
            label: b.0.clone(),
            custom_id: b.1.clone(),
            style: if i == 0 {
                1
            } else {
                2
            },
        };
        proof {
            assert(components::discord_component(button) == want[i as int]);
            assert(components::discord_components(out@.push(button))
                =~= components::discord_components(out@).push(
                components::discord_component(button),
            ));
            assert(want.take(i + 1) =~= want.take(i as int).push(want[i as int]));
        }
        out.push(button);
        i += 1;
    }
    assert(want.take(want.len() as int) =~= want);
    out
}

impl DiscordAdapter {
    fn send_buttons(&self, channel_id: &str, content: &str, buttons: &Vec<(String, String)>) -> (r:
        ApiRequest)
        ensures
            r@ == buttons_request(self@.token, channel_id@, content@, block_buttons(buttons@)),
    {
        self.api_send_with_components(channel_id, content, &buttons_for(buttons))
    }
}

// ---------------------------------------------------------------- chunks

/// The most bytes that a message takes.
pub const MESSAGE_LIMIT: usize = 2000;

/// How many characters go into the next message: all if they fit, else those up to the last line
/// break that fits, else as many as fit.
pub open spec fn chunk_len(s: Seq<char>) -> int {
    if text::byte_len(s) <= MESSAGE_LIMIT {
        s.len() as int
    } else {
        let head = text::within_bytes(s, MESSAGE_LIMIT as nat);
        match text::rfind(head, '\n') {
            Some(p) => p + 1,
            None => head.len() as int,
        }
    }
}

/// A text in chunks, one for each message.
pub open spec fn text_chunks(s: Seq<char>) -> Seq<Seq<char>>
    decreases s.len(),
{
    let n = chunk_len(s);
    if 0 < n <= s.len() {
        seq![s.take(n)] + text_chunks(s.skip(n))
    } else {
        Seq::empty()
    }
}

proof fn lemma_rfind(s: Seq<char>, c: char)
    ensures
        match text::rfind(s, c) {
            Some(p) => 0 <= p < s.len() && s[p] == c,
            None => true,
        },
    decreases s.len(),
{
    if s.len() > 0 && s.last() != c {
        lemma_rfind(s.drop_last(), c);
    }
}

proof fn lemma_within_is_prefix(s: Seq<char>, limit: nat)
    ensures
        text::within_bytes(s, limit).len() <= s.len(),
        text::within_bytes(s, limit) == s.take(text::within_bytes(s, limit).len() as int),
        text::byte_len(text::within_bytes(s, limit)) <= limit,
        limit >= 4 && s.len() > 0 ==> text::within_bytes(s, limit).len() > 0,
    decreases s.len(),
{
    if text::byte_len(s) <= limit || s.len() == 0 {
        assert(s.take(s.len() as int) =~= s);
    } else {
        let front = s.drop_last();
        lemma_within_is_prefix(front, limit);
        let n = text::within_bytes(front, limit).len() as int;
        assert(front.take(n) =~= s.take(n));
        if s.len() == 1 {
            text::lemma_byte_len_bounds(s);
        }
    }
}

/// A chunk is never empty and takes no more bytes than a message may.
pub(crate) proof fn lemma_chunk_len(s: Seq<char>)
    requires
        s.len() > 0,
    ensures
        0 < chunk_len(s) <= s.len(),
        text::byte_len(s.take(chunk_len(s))) <= MESSAGE_LIMIT,
{
    let head = text::within_bytes(s, MESSAGE_LIMIT as nat);
    lemma_within_is_prefix(s, MESSAGE_LIMIT as nat);
    lemma_rfind(head, '\n');
    assert(s.take(s.len() as int) =~= s);
    text::lemma_byte_len_take(s, chunk_len(s), if text::byte_len(s) <= MESSAGE_LIMIT {
        s.len() as int
    } else {
        head.len() as int
    });
}

/// Splits a text into chunks, one for each message.
pub fn chunk_text(s: &str) -> (r: Vec<String>)
    ensures
        text::strings(r@) == text_chunks(s@),
{
    let chars = text::chars_of(s);
    let mut out: Vec<String> = Vec::new();
    let mut i: usize = 0;
    assert(text::strings(out@) =~= Seq::<Seq<char>>::empty());
    assert(chars@.skip(0) =~= chars@);
    while i < chars.len()
        invariant
            i <= chars@.len(),
            text::strings(out@) + text_chunks(chars@.skip(i as int)) =~= text_chunks(chars@),
        decreases chars@.len() - i,
    {
        let rest = slice_subrange(chars.as_slice(), i, chars.len());
        assert(rest@ =~= chars@.skip(i as int));
        proof {
            lemma_chunk_len(rest@);
        }
        let n: usize = if text::longer_than(rest, MESSAGE_LIMIT) {
            let fit: usize = text::count_within(rest, MESSAGE_LIMIT);
            let head = slice_subrange(rest, 0, fit);
            assert(head@ =~= rest@.take(fit as int));
            match text::find_last(head, '\n') {
                Some(p) => p + 1,
                None => fit,
            }
        } else {
            rest.len()
        };
        assert(n == chunk_len(rest@));
        let chunk = text::string_of(slice_subrange(rest, 0, n));
        proof {
            text::lemma_strings_push(out@, chunk);
            assert(chunk@ =~= rest@.take(n as int));
            assert(rest@.skip(n as int) =~= chars@.skip(i + n));
            assert(text::strings(out@).push(chunk@) + text_chunks(chars@.skip(i + n))
                =~= text::strings(out@) + (seq![chunk@] + text_chunks(chars@.skip(i + n))));
        }
        out.push(chunk);
        i = i + n;
    }
    proof {
        let end = chars@.skip(chars@.len() as int);
        assert(end =~= Seq::<char>::empty());
        assert(text::strings(out@) + text_chunks(end) =~= text::strings(out@));
    }
    out
}

/// The chunks put together.
pub open spec fn flattened(chunks: Seq<Seq<char>>) -> Seq<char>
    decreases chunks.len(),
{
    if chunks.len() == 0 {
        Seq::empty()
    } else {
        chunks[0] + flattened(chunks.drop_first())
    }
}

/// The chunks of a text, put together, are the text.
pub proof fn chunks_are_the_text(s: Seq<char>)
    ensures
        flattened(text_chunks(s)) == s,
    decreases s.len(),
{
    if s.len() > 0 {
        lemma_chunk_len(s);
        let n = chunk_len(s);
        chunks_are_the_text(s.skip(n));
        assert(text_chunks(s).drop_first() =~= text_chunks(s.skip(n)));
        assert(s.take(n) + s.skip(n) =~= s);
    } else {
        assert(flattened(text_chunks(s)) =~= s);
    }
}

/// Every chunk of a text fits into a message and is not empty.
pub proof fn chunks_fit(s: Seq<char>)
    ensures
        forall|i: int|
            0 <= i < text_chunks(s).len() ==> (#[trigger] text_chunks(s)[i]).len() > 0
                && text::byte_len(text_chunks(s)[i]) <= MESSAGE_LIMIT,
    decreases s.len(),
{
    if s.len() > 0 {
        lemma_chunk_len(s);
        let n = chunk_len(s);
        chunks_fit(s.skip(n));
        assert forall|i: int| 0 <= i < text_chunks(s).len() implies (#[trigger] text_chunks(
            s,
        )[i]).len() > 0 && text::byte_len(text_chunks(s)[i]) <= MESSAGE_LIMIT by {
            if i > 0 {
                assert(text_chunks(s)[i] == text_chunks(s.skip(n))[i - 1]);
            }
        }
    }
}

// ---------------------------------------------------------------- components of the second version

/// A text.
pub open spec fn text_part(content: Seq<char>) -> Tree {
    json::obj().with("type"@, json::num(10)).with("content"@, Tree::Str(content))
}

/// A list of images.
pub open spec fn gallery_part(items: Seq<Tree>) -> Tree {
    json::obj().with("type"@, json::num(12)).with("items"@, Tree::Array(items))
}

/// An image.
pub open spec fn gallery_item(url: Seq<char>) -> Tree {
    json::obj().with("media"@, discord_types::media_tree(url))
}

/// The lines for an embed's fields.
pub open spec fn field_lines(fields: Seq<(Seq<char>, Seq<char>, bool)>) -> Seq<char>
    decreases fields.len(),
{
    if fields.len() == 0 {
        Seq::empty()
    } else {
        field_lines(fields.drop_last()) + "**"@ + fields.last().0 + ":** "@ + fields.last().1
            + "\n"@
    }
}

/// The heading for an embed's title.
pub open spec fn title_line(title: Option<Seq<char>>) -> Seq<char> {
    match title {
        Some(t) => "### "@ + t + "\n"@,
        None => Seq::empty(),
    }
}

/// The line for an embed's footer.
pub open spec fn footer_line(footer: Option<Seq<char>>) -> Seq<char> {
    match footer {
        Some(t) => "\n-# "@ + t,
        None => Seq::empty(),
    }
}

/// The paragraph for an embed's fields.
pub open spec fn field_paragraph(fields: Seq<(Seq<char>, Seq<char>, bool)>) -> Seq<char> {
    if fields.len() == 0 {
        Seq::empty()
    } else {
        "\n\n"@ + field_lines(fields)
    }
}

/// An embed as one text: title, description, fields and footer.
pub open spec fn embed_text(
    title: Option<Seq<char>>,
    description: Seq<char>,
    fields: Seq<(Seq<char>, Seq<char>, bool)>,
    footer: Option<Seq<char>>,
) -> Seq<char> {
    title_line(title) + description + field_paragraph(fields) + footer_line(footer)
}

/// A frame with an accent color.
pub open spec fn container_part(accent: u32, inner: Seq<Tree>) -> Tree {
    json::obj().with("type"@, json::num(17)).with("accent_color"@, json::num(accent as int)).with(
        "components"@,
        Tree::Array(inner),
    )
}

/// A button.
pub open spec fn button_part(i: int, button: (Seq<char>, Seq<char>)) -> Tree {
    json::obj().with("type"@, json::num(2)).with("style"@, json::num(button_style(i) as int)).with(
        "label"@,
        Tree::Str(button.0),
    ).with("custom_id"@, Tree::Str(button.1))
}

/// A row of buttons.
pub open spec fn buttons_part(buttons: Seq<(Seq<char>, Seq<char>)>) -> Tree {
    json::obj().with("type"@, json::num(1)).with(
        "components"@,
        Tree::Array(Seq::new(buttons.len(), |i: int| button_part(i, buttons[i]))),
    )
}

/// An image with its caption.
pub open spec fn image_item(image: (Seq<char>, Option<Seq<char>>)) -> Tree {
    discord_types::with_opt(
        gallery_item(image.0),
        "description"@,
        discord_types::opt_str(image.1),
    )
}

/// A text with a thumbnail beside it.
pub open spec fn section_part(content: Seq<char>, thumbnail_url: Option<Seq<char>>) -> Tree {
    discord_types::with_opt(
        json::obj().with("type"@, json::num(9)).with(
            "components"@,
            Tree::Array(seq![text_part(content)]),
        ),
        "accessory"@,
        match thumbnail_url {
            Some(u) => Some(
                json::obj().with("type"@, json::num(11)).with(
                    "media"@,
                    discord_types::media_tree(u),
                ),
            ),
            None => None,
        },
    )
}

/// A text, unless it is blank.
pub open spec fn visible_text(content: Seq<char>) -> Seq<Tree> {
    if text::trimmed(content).len() == 0 {
        Seq::empty()
    } else {
        seq![text_part(content)]
    }
}

/// The components for a block.
pub open spec fn block_parts(b: BlockView) -> Seq<Tree> {
    match b {
        BlockView::PlainText(t) => visible_text(t),
        BlockView::Embed { title, description, color, fields, image_url, footer } => seq![
            container_part(
                match color {
                    Some(c) => c,
                    None => 0x5865F2u32,
                },
                seq![text_part(embed_text(title, description, fields, footer))] + (
                match image_url {
                    Some(u) => seq![gallery_part(seq![gallery_item(u)])],
                    None => Seq::empty(),
                }),
            ),
        ],
        BlockView::Buttons { text, buttons } => visible_text(text).push(buttons_part(buttons)),
        BlockView::ImageGallery { images } => seq![
            gallery_part(
                images.map_values(|i: (Seq<char>, Option<Seq<char>>)| image_item(i)),
            ),
        ],
        BlockView::Section { text, thumbnail_url } => seq![section_part(text, thumbnail_url)],
    }
}

/// The components for a list of blocks.
pub open spec fn all_parts(blocks: Seq<BlockView>) -> Seq<Tree>
    decreases blocks.len(),
{
    if blocks.len() == 0 {
        Seq::empty()
    } else {
        all_parts(blocks.drop_last()) + block_parts(blocks.last())
    }
}

fn text_json(content: &str) -> (r: Json)
    ensures
        r@ == text_part(content@),
{
    Json::object().with("type", Json::number(10)).with("content", Json::string(content))
}

fn media_json(url: &str) -> (r: Json)
    ensures
        r@ == discord_types::media_tree(url@),
{
    Json::object().with("url", Json::string(url))
}

fn embed_markdown(
    title: &Option<String>,
    description: &str,
    fields: &Vec<(String, String, bool)>,
    footer: &Option<String>,
) -> (r: String)
    ensures
        r@ == embed_text(
            text::opt_text(*title),
            description@,
            block_fields(fields@),
            text::opt_text(*footer),
        ),
{
    let mut md: String = String::new();
    if let Some(t) = title {
        md.append("### ");
        md.append(t.as_str());
        md.append("\n");
    }
    assert(md@ =~= title_line(text::opt_text(*title)));
    md.append(description);
    let ghost before = md@;
    if fields.len() > 0 {
        md.append("\n\n");
        let ghost start = md@;
        let ghost all = block_fields(fields@);
        let mut i: usize = 0;
        assert(all.take(0) =~= Seq::<(Seq<char>, Seq<char>, bool)>::empty());
        assert(md@ =~= start + field_lines(all.take(0)));
        while i < fields.len()
            invariant
                i <= fields@.len(),
                all == block_fields(fields@),
                md@ == start + field_lines(all.take(i as int)),
            decreases fields@.len() - i,
        {
            proof {
                assert(all.take(i + 1).drop_last() =~= all.take(i as int));
                assert(all.take(i + 1).last() == (fields@[i as int].0@, fields@[i as int].1@, fields@[
                    i as int].2));
            }
            md.append("**");
            md.append(fields[i].0.as_str());
            md.append(":** ");
            md.append(fields[i].1.as_str());
            md.append("\n");
            i += 1;
            assert(md@ =~= start + field_lines(all.take(i as int)));
        }
        assert(all.take(all.len() as int) =~= all);
        assert(md@ =~= before + field_paragraph(all));
    }
    assert(md@ =~= before + field_paragraph(block_fields(fields@)));
    let ghost whole = md@;
    if let Some(ft) = footer {
        md.append("\n-# ");
        md.append(ft.as_str());
    }
    assert(md@ =~= whole + footer_line(text::opt_text(*footer)));
    md
}

fn buttons_json(buttons: &Vec<(String, String)>) -> (r: Json)
    ensures
        r@ == buttons_part(block_buttons(buttons@)),
{
    let mut items: Vec<Json> = Vec::new();
    let mut i: usize = 0;
    let ghost all = block_buttons(buttons@);
    let ghost want = Seq::new(all.len(), |i: int| button_part(i, all[i]));
    assert(json::trees(items@) =~= want.take(0));
    while i < buttons.len()
        invariant
            i <= buttons@.len(),
            all == block_buttons(buttons@),
            want == Seq::new(all.len(), |i: int| button_part(i, all[i])),
            json::trees(items@) == want.take(i as int),
        decreases buttons@.len() - i,
    {
        let style: u64 = if i == 0 {
            1
        } else {
            2
        };
        let item = Json::object().with("type", Json::number(2)).with(
            "style",
            Json::number(style),
        ).with("label", Json::string(buttons[i].0.as_str())).with(
            "custom_id",
            Json::string(buttons[i].1.as_str()),
        );
        proof {
            assert(item@ == want[i as int]);
            assert(want.take(i + 1) =~= want.take(i as int).push(want[i as int]));
        }
        json::push_item(&mut items, item);
        i += 1;
    }
    assert(want.take(want.len() as int) =~= want);
    Json::object().with("type", Json::number(1)).with("components", Json::Array(items))
}

fn images_json(images: &Vec<(String, Option<String>)>) -> (r: Json)
    ensures
        r@ == gallery_part(
            block_images(images@).map_values(
                |i: (Seq<char>, Option<Seq<char>>)| image_item(i),
            ),
        ),
{
    let mut items: Vec<Json> = Vec::new();
    let mut i: usize = 0;
    let ghost want = block_images(images@).map_values(
        |i: (Seq<char>, Option<Seq<char>>)| image_item(i),
    );
    assert(json::trees(items@) =~= want.take(0));
    while i < images.len()
        invariant
            i <= images@.len(),
            want == block_images(images@).map_values(
                |i: (Seq<char>, Option<Seq<char>>)| image_item(i),
            ),
            json::trees(items@) == want.take(i as int),
        decreases images@.len() - i,
    {
        let item = discord_types::with_opt_str(
            Json::object().with("media", media_json(images[i].0.as_str())),
            "description",
            &images[i].1,
        );
        proof {
            assert(item@ == want[i as int]);
            assert(want.take(i + 1) =~= want.take(i as int).push(want[i as int]));
        }
        json::push_item(&mut items, item);
        i += 1;
    }
    assert(want.take(want.len() as int) =~= want);
    Json::object().with("type", Json::number(12)).with("items", Json::Array(items))
}

fn push_visible(parts: &mut Vec<Json>, content: &str)
    ensures
        json::trees(final(parts)@) == json::trees(old(parts)@) + visible_text(content@),
{
    if !text::is_blank(content) {
        json::push_item(parts, text_json(content));
    }
    assert(json::trees(parts@) =~= json::trees(old(parts)@) + visible_text(content@));
}

fn push_parts(parts: &mut Vec<Json>, block: &RichBlock)
    ensures
        json::trees(final(parts)@) == json::trees(old(parts)@) + block_parts(block@),
{
    match block {
        RichBlock::PlainText(t) => {
            push_visible(parts, t.as_str());
        },
        RichBlock::Embed { title, description, color, fields, image_url, footer } => {
            let accent: u32 = match color {
                Some(c) => *c,
                None => 0x5865F2,
            };
            let mut inner: Vec<Json> = Vec::new();
            let md = embed_markdown(title, description.as_str(), fields, footer);
            json::push_item(&mut inner, text_json(md.as_str()));
            if let Some(url) = image_url {
                let gallery = Json::object().with("type", Json::number(12)).with(
                    "items",
                    Json::single(Json::object().with("media", media_json(url.as_str()))),
                );
                json::push_item(&mut inner, gallery);
            }
            assert(json::trees(inner@) =~= seq![text_part(md@)] + (match text::opt_text(
                *image_url,
            ) {
                Some(u) => seq![gallery_part(seq![gallery_item(u)])],
                None => Seq::empty(),
            }));
            let container = Json::object().with("type", Json::number(17)).with(
                "accent_color",
                Json::number(accent as u64),
            ).with("components", Json::Array(inner));
            json::push_item(parts, container);
        },
        RichBlock::Buttons { text, buttons } => {
            push_visible(parts, text.as_str());
            json::push_item(parts, buttons_json(buttons));
        },
        RichBlock::ImageGallery { images } => {
            json::push_item(parts, images_json(images));
        },
        RichBlock::Section { text, thumbnail_url } => {
            let section = Json::object().with("type", Json::number(9)).with(
                "components",
                Json::single(text_json(text.as_str())),
            );
            let whole = match thumbnail_url {
                Some(url) => section.with(
                    "accessory",
                    Json::object().with("type", Json::number(11)).with(
                        "media",
                        media_json(url.as_str()),
                    ),
                ),
                None => section,
            };
            json::push_item(parts, whole);
        },
    }
    assert(json::trees(parts@) =~= json::trees(old(parts)@) + block_parts(block@));
}

// ---------------------------------------------------------------- plans

/// Something to send.
pub enum RichStep {
    Request(ApiRequest),
    /// A text, to be split into messages.
    Text(String),
}

/// How to send rich blocks.
pub enum RichPlan {
    /// Send these in order, up to the first that fails.
    Steps(Vec<RichStep>),
    /// Send this. If it fails, send the blocks one by one.
    Layout(ApiRequest),
}

/// What a step holds.
pub enum StepView {
    Request(RequestView),
    Text(Seq<char>),
}

/// What a plan holds.
pub enum PlanView {
    Steps(Seq<StepView>),
    Layout(RequestView),
}

impl View for RichStep {
    type V = StepView;

    open spec fn view(&self) -> StepView {
        match *self {
            RichStep::Request(r) => StepView::Request(r@),
            RichStep::Text(t) => StepView::Text(t@),
        }
    }
}

/// What a list of steps holds.
pub open spec fn step_views(steps: Seq<RichStep>) -> Seq<StepView> {
    steps.map_values(|s: RichStep| s@)
}

impl View for RichPlan {
    type V = PlanView;

    open spec fn view(&self) -> PlanView {
        match *self {
            RichPlan::Steps(steps) => PlanView::Steps(step_views(steps@)),
            RichPlan::Layout(r) => PlanView::Layout(r@),
        }
    }
}

/// What to send for a block where there are embeds: each embed with the plain texts beside it, and
/// the buttons.
pub open spec fn embed_steps(
    token: Seq<char>,
    channel_id: Seq<char>,
    beside: Option<Seq<char>>,
    b: BlockView,
) -> Seq<StepView> {
    match b {
        BlockView::Embed { .. } => seq![
            StepView::Request(
                requests::post_message(
                    token,
                    channel_id,
                    requests::embed_body(beside, embed_of(b)),
                ),
            ),
        ],
        BlockView::Buttons { text, buttons } => seq![
            StepView::Request(buttons_request(token, channel_id, text, buttons)),
        ],
        _ => Seq::empty(),
    }
}

/// What to send for a block where there are buttons and texts alone.
pub open spec fn button_steps(token: Seq<char>, channel_id: Seq<char>, b: BlockView) -> Seq<
    StepView,
> {
    match b {
        BlockView::Buttons { text, buttons } => seq![
            StepView::Request(buttons_request(token, channel_id, text, buttons)),
        ],
        BlockView::PlainText(t) => seq![StepView::Text(t)],
        _ => Seq::empty(),
    }
}

/// What to send where there are embeds.
pub open spec fn all_embed_steps(
    token: Seq<char>,
    channel_id: Seq<char>,
    beside: Option<Seq<char>>,
    blocks: Seq<BlockView>,
) -> Seq<StepView>
    decreases blocks.len(),
{
    if blocks.len() == 0 {
        Seq::empty()
    } else {
        all_embed_steps(token, channel_id, beside, blocks.drop_last()) + embed_steps(
            token,
            channel_id,
            beside,
            blocks.last(),
        )
    }
}

/// What to send where there are buttons and texts alone.
pub open spec fn all_button_steps(
    token: Seq<char>,
    channel_id: Seq<char>,
    blocks: Seq<BlockView>,
) -> Seq<StepView>
    decreases blocks.len(),
{
    if blocks.len() == 0 {
        Seq::empty()
    } else {
        all_button_steps(token, channel_id, blocks.drop_last()) + button_steps(
            token,
            channel_id,
            blocks.last(),
        )
    }
}

/// How blocks are sent. Embeds, with or without buttons, go out one by one, and so do buttons;
/// anything else is laid out in one message.
pub open spec fn rich_plan(
    token: Seq<char>,
    channel_id: Seq<char>,
    blocks: Seq<BlockView>,
) -> PlanView {
    if has_embed(blocks) && !has_layout(blocks) {
        PlanView::Steps(all_embed_steps(token, channel_id, companion(blocks), blocks))
    } else if has_buttons(blocks) && !has_layout(blocks) {
        PlanView::Steps(all_button_steps(token, channel_id, blocks))
    } else {
        PlanView::Layout(
            requests::post_message(token, channel_id, requests::v2_body(all_parts(blocks))),
        )
    }
}

/// Something to send after the layout has failed.
pub enum FallbackStep {
    /// An embed. It counts as sent if it did not fail.
    Embed(ApiRequest),
    /// A text. It counts as sent in any case.
    Text(String),
    /// Buttons. They count as sent in any case.
    Buttons(ApiRequest),
}

/// What a fallback holds.
pub enum FallbackView {
    Embed(RequestView),
    Text(Seq<char>),
    Buttons(RequestView),
}

impl View for FallbackStep {
    type V = FallbackView;

    open spec fn view(&self) -> FallbackView {
        match *self {
            FallbackStep::Embed(r) => FallbackView::Embed(r@),
            FallbackStep::Text(t) => FallbackView::Text(t@),
            FallbackStep::Buttons(r) => FallbackView::Buttons(r@),
        }
    }
}

/// What a list of fallbacks holds.
pub open spec fn fallback_views(steps: Seq<FallbackStep>) -> Seq<FallbackView> {
    steps.map_values(|s: FallbackStep| s@)
}

/// What to send for a block after the layout has failed.
pub open spec fn block_fallback(token: Seq<char>, channel_id: Seq<char>, b: BlockView) -> Seq<
    FallbackView,
> {
    match b {
        BlockView::Embed { .. } => seq![
            FallbackView::Embed(
                requests::post_message(
                    token,
                    channel_id,
                    requests::embed_body(None, short_embed(b)),
                ),
            ),
        ],
        BlockView::PlainText(t) => if text::trimmed(t).len() == 0 {
            Seq::empty()
        } else {
            text_chunks(t).map_values(|c: Seq<char>| FallbackView::Text(c))
        },
        BlockView::Buttons { text, buttons } => seq![
            FallbackView::Buttons(buttons_request(token, channel_id, text, buttons)),
        ],
        _ => Seq::empty(),
    }
}

/// What to send after the layout has failed.
pub open spec fn fallback(token: Seq<char>, channel_id: Seq<char>, blocks: Seq<BlockView>) -> Seq<
    FallbackView,
>
    decreases blocks.len(),
{
    if blocks.len() == 0 {
        Seq::empty()
    } else {
        fallback(token, channel_id, blocks.drop_last()) + block_fallback(
            token,
            channel_id,
            blocks.last(),
        )
    }
}

/// Something counts as sent, given which steps did not fail.
pub open spec fn any_sent(steps: Seq<FallbackView>, outcomes: Seq<bool>) -> bool {
    exists|i: int| 0 <= i < steps.len() && (!(#[trigger] steps[i] is Embed) || outcomes[i])
}

/// The texts to send if nothing else was.
pub open spec fn last_resort(
    steps: Seq<FallbackView>,
    outcomes: Seq<bool>,
    fallback_text: Seq<char>,
) -> Seq<Seq<char>> {
    if any_sent(steps, outcomes) {
        Seq::empty()
    } else {
        text_chunks(fallback_text)
    }
}

fn push_step(steps: &mut Vec<RichStep>, step: RichStep)
    ensures
        step_views(final(steps)@) == step_views(old(steps)@).push(step@),
{
    proof {
        assert(step_views(steps@.push(step)) =~= step_views(steps@).push(step@));
    }
    steps.push(step);
}

fn push_fallback(steps: &mut Vec<FallbackStep>, step: FallbackStep)
    ensures
        fallback_views(final(steps)@) == fallback_views(old(steps)@).push(step@),
{
    proof {
        assert(fallback_views(steps@.push(step)) =~= fallback_views(steps@).push(step@));
    }
    steps.push(step);
}

/// What kinds of blocks there are.
struct Kinds {
    embed: bool,
    buttons: bool,
    layout: bool,
}

fn kinds_of(blocks: &Vec<RichBlock>) -> (r: Kinds)
    ensures
        r.embed == has_embed(block_views(blocks@)),
        r.buttons == has_buttons(block_views(blocks@)),
        r.layout == has_layout(block_views(blocks@)),
{
    let mut k = Kinds { embed: false, buttons: false, layout: false };
    let ghost all = block_views(blocks@);
    let mut i: usize = 0;
    assert(all.take(0) =~= Seq::<BlockView>::empty());
    while i < blocks.len()
        invariant
            i <= blocks@.len(),
            all == block_views(blocks@),
            k.embed == has_embed(all.take(i as int)),
            k.buttons == has_buttons(all.take(i as int)),
            k.layout == has_layout(all.take(i as int)),
        decreases blocks@.len() - i,
    {
        let ghost head = all.take(i as int);
        let ghost next = all.take(i + 1);
        proof {
            assert(next =~= head.push(all[i as int]));
            assert(next[i as int] == blocks@[i as int]@);
            assert(forall|j: int| 0 <= j < head.len() ==> head[j] == #[trigger] next[j]);
            assert(forall|j: int| 0 <= j < head.len() ==> #[trigger] head[j] == next[j]);
        }
        match &blocks[i] {
            RichBlock::Embed { .. } => {
                k.embed = true;
            },
            RichBlock::Buttons { .. } => {
                k.buttons = true;
            },
            RichBlock::ImageGallery { .. } => {
                k.layout = true;
            },
            RichBlock::Section { .. } => {
                k.layout = true;
            },
            RichBlock::PlainText(_) => {},
        }
        i += 1;
    }
    assert(all.take(all.len() as int) =~= all);
    k
}

fn companion_of(blocks: &Vec<RichBlock>) -> (r: Option<String>)
    ensures
        text::opt_text(r) == companion(block_views(blocks@)),
{
    let mut texts: Vec<Vec<char>> = Vec::new();
    let ghost all = block_views(blocks@);
    let mut i: usize = 0;
    assert(all.take(0) =~= Seq::<BlockView>::empty());
    assert(text::texts(texts@) =~= Seq::<Seq<char>>::empty());
    while i < blocks.len()
        invariant
            i <= blocks@.len(),
            all == block_views(blocks@),
            text::texts(texts@) == plain_texts(all.take(i as int)),
        decreases blocks@.len() - i,
    {
        proof {
            assert(all.take(i + 1).drop_last() =~= all.take(i as int));
            assert(all.take(i + 1).last() == blocks@[i as int]@);
        }
        if let RichBlock::PlainText(t) = &blocks[i] {
            let chars = text::chars_of(t.as_str());
            proof {
                text::lemma_texts_push(texts@, chars);
            }
            texts.push(chars);
        }
        i += 1;
    }
    assert(all.take(all.len() as int) =~= all);
    if texts.len() == 0 {
        None
    } else {
        Some(text::string_of(text::join(&texts, "\n").as_slice()))
    }
}

impl DiscordAdapter {
    fn push_embed_steps(
        &self,
        steps: &mut Vec<RichStep>,
        channel_id: &str,
        beside: &Option<String>,
        block: &RichBlock,
    )
        ensures
            step_views(final(steps)@) == step_views(old(steps)@) + embed_steps(
                self@.token,
                channel_id@,
                text::opt_text(*beside),
                block@,
            ),
    {
        match block {
            RichBlock::Embed { title, description, color, fields, image_url, footer } => {
                let mut embed = DiscordEmbed::default();
                embed.title = discord_types::copy_opt(title);
                embed.description = Some(description.clone());
                embed.color = *color;
                embed.fields = fields_for(fields);
                embed.image = media_for(image_url);
                embed.footer = footer_for(footer);
                assert(embed@ == embed_of(block@));
                let request = self.api_send_embed(channel_id, beside, &embed);
                push_step(steps, RichStep::Request(request));
            },
            RichBlock::Buttons { text, buttons } => {
                let request = self.send_buttons(channel_id, text.as_str(), buttons);
                push_step(steps, RichStep::Request(request));
            },
            _ => {},
        }
        assert(step_views(steps@) =~= step_views(old(steps)@) + embed_steps(
            self@.token,
            channel_id@,
            text::opt_text(*beside),
            block@,
        ));
    }

    fn push_button_steps(&self, steps: &mut Vec<RichStep>, channel_id: &str, block: &RichBlock)
        ensures
            step_views(final(steps)@) == step_views(old(steps)@) + button_steps(
                self@.token,
                channel_id@,
                block@,
            ),
    {
        match block {
            RichBlock::Buttons { text, buttons } => {
                let request = self.send_buttons(channel_id, text.as_str(), buttons);
                push_step(steps, RichStep::Request(request));
            },
            RichBlock::PlainText(t) => {
                push_step(steps, RichStep::Text(t.clone()));
            },
            _ => {},
        }
        assert(step_views(steps@) =~= step_views(old(steps)@) + button_steps(
            self@.token,
            channel_id@,
            block@,
        ));
    }

    /// Routes rich blocks to the best way to send them: embeds and buttons one by one, anything
    /// else in one layout. If the layout fails, [`DiscordAdapter::rich_fallback`] follows.
    pub fn send_rich_blocks(&self, channel_id: &str, blocks: &Vec<RichBlock>) -> (r: RichPlan)
        ensures
            r@ == rich_plan(self@.token, channel_id@, block_views(blocks@)),
    {
        let kinds = kinds_of(blocks);
        let ghost all = block_views(blocks@);
        let ghost token = self@.token;
        assert(all.take(0) =~= Seq::<BlockView>::empty());
        assert(all.take(all.len() as int) =~= all);
        let mut i: usize = 0;
        if kinds.embed && !kinds.layout {
            let beside = companion_of(blocks);
            let mut steps: Vec<RichStep> = Vec::new();
            assert(step_views(steps@) =~= Seq::<StepView>::empty());
            while i < blocks.len()
                invariant
                    i <= blocks@.len(),
                    all == block_views(blocks@),
                    token == self@.token,
                    step_views(steps@) == all_embed_steps(
                        token,
                        channel_id@,
                        text::opt_text(beside),
                        all.take(i as int),
                    ),
                decreases blocks@.len() - i,
            {
                proof {
                    assert(all.take(i + 1).drop_last() =~= all.take(i as int));
                    assert(all.take(i + 1).last() == blocks@[i as int]@);
                }
                self.push_embed_steps(&mut steps, channel_id, &beside, &blocks[i]);
                i += 1;
            }
            RichPlan::Steps(steps)
        } else if kinds.buttons && !kinds.layout {
            let mut steps: Vec<RichStep> = Vec::new();
            assert(step_views(steps@) =~= Seq::<StepView>::empty());
            while i < blocks.len()
                invariant
                    i <= blocks@.len(),
                    all == block_views(blocks@),
                    token == self@.token,
                    step_views(steps@) == all_button_steps(
                        token,
                        channel_id@,
                        all.take(i as int),
                    ),
                decreases blocks@.len() - i,
            {
                proof {
                    assert(all.take(i + 1).drop_last() =~= all.take(i as int));
                    assert(all.take(i + 1).last() == blocks@[i as int]@);
                }
                self.push_button_steps(&mut steps, channel_id, &blocks[i]);
                i += 1;
            }
            RichPlan::Steps(steps)
        } else {
            let mut parts: Vec<Json> = Vec::new();
            while i < blocks.len()
                invariant
                    i <= blocks@.len(),
                    all == block_views(blocks@),
                    json::trees(parts@) == all_parts(all.take(i as int)),
                decreases blocks@.len() - i,
            {
                proof {
                    assert(all.take(i + 1).drop_last() =~= all.take(i as int));
                    assert(all.take(i + 1).last() == blocks@[i as int]@);
                }
                push_parts(&mut parts, &blocks[i]);
                i += 1;
            }
            RichPlan::Layout(self.api_send_v2(channel_id, parts))
        }
    }

    fn push_block_fallback(
        &self,
        steps: &mut Vec<FallbackStep>,
        channel_id: &str,
        block: &RichBlock,
    )
        requires
            block_cuts(block@),
        ensures
            fallback_views(final(steps)@) == fallback_views(old(steps)@) + block_fallback(
                self@.token,
                channel_id@,
                block@,
            ),
    {
        match block {
            RichBlock::Embed { title, description, color, fields, image_url, footer } => {
                let mut embed = DiscordEmbed::default();
                embed.title = discord_types::copy_opt(title);
                embed.description = Some(shorten(description.as_str(), 4096, 4090));
                embed.color = *color;
                embed.fields = short_fields_for(fields);
                embed.image = media_for(image_url);
                embed.footer = footer_for(footer);
                assert(embed@ == short_embed(block@));
                let request = self.api_send_embed(channel_id, &None, &embed);
                push_fallback(steps, FallbackStep::Embed(request));
            },
            RichBlock::PlainText(t) => {
                if !text::is_blank(t.as_str()) {
                    let chunks = chunk_text(t.as_str());
                    let ghost before = fallback_views(steps@);
                    let ghost want = text_chunks(t@).map_values(
                        |c: Seq<char>| FallbackView::Text(c),
                    );
                    let mut i: usize = 0;
                    assert(fallback_views(steps@) =~= before + want.take(0));
                    while i < chunks.len()
                        invariant
                            i <= chunks@.len(),
                            text::strings(chunks@) == text_chunks(t@),
                            want == text_chunks(t@).map_values(
                                |c: Seq<char>| FallbackView::Text(c),
                            ),
                            fallback_views(steps@) == before + want.take(i as int),
                        decreases chunks@.len() - i,
                    {
                        let chunk = chunks[i].clone();
                        proof {
                            assert(text::strings(chunks@)[i as int] == chunk@);
                            assert(want.take(i + 1) =~= want.take(i as int).push(want[i as int]));
                            assert((before + want.take(i as int)).push(FallbackView::Text(chunk@))
                                =~= before + want.take(i + 1));
                        }
                        push_fallback(steps, FallbackStep::Text(chunk));
                        i += 1;
                    }
                    assert(want.take(want.len() as int) =~= want);
                }
            },
            RichBlock::Buttons { text, buttons } => {
                let request = self.send_buttons(channel_id, text.as_str(), buttons);
                push_fallback(steps, FallbackStep::Buttons(request));
            },
            _ => {},
        }
        assert(fallback_views(steps@) =~= fallback_views(old(steps)@) + block_fallback(
            self@.token,
            channel_id@,
            block@,
        ));
    }

    /// What to send for one block after the layout has failed, within what Discord takes.
    pub fn rich_block_fallback(&self, channel_id: &str, block: &RichBlock) -> (r: Vec<FallbackStep>)
        requires
            block_cuts(block@),
        ensures
            fallback_views(r@) == block_fallback(self@.token, channel_id@, block@),
    {
        let mut steps: Vec<FallbackStep> = Vec::new();
        self.push_block_fallback(&mut steps, channel_id, block);
        assert(fallback_views(steps@) =~= block_fallback(self@.token, channel_id@, block@));
        steps
    }

    /// What to send after the layout has failed: each block by itself, within what Discord takes.
    pub fn rich_fallback(&self, channel_id: &str, blocks: &Vec<RichBlock>) -> (r: Vec<FallbackStep>)
        requires
            blocks_cut(block_views(blocks@)),
        ensures
            fallback_views(r@) == fallback(self@.token, channel_id@, block_views(blocks@)),
    {
        let ghost all = block_views(blocks@);
        let ghost token = self@.token;
        let mut steps: Vec<FallbackStep> = Vec::new();
        let mut i: usize = 0;
        assert(all.take(0) =~= Seq::<BlockView>::empty());
        assert(fallback_views(steps@) =~= Seq::<FallbackView>::empty());
        while i < blocks.len()
            invariant
                i <= blocks@.len(),
                all == block_views(blocks@),
                token == self@.token,
                blocks_cut(all),
                fallback_views(steps@) == fallback(token, channel_id@, all.take(i as int)),
            decreases blocks@.len() - i,
        {
            proof {
                assert(all.take(i + 1).drop_last() =~= all.take(i as int));
                assert(all.take(i + 1).last() == blocks@[i as int]@);
                assert(block_cuts(all[i as int]));
            }
            self.push_block_fallback(&mut steps, channel_id, &blocks[i]);
            i += 1;
        }
        assert(all.take(all.len() as int) =~= all);
        steps
    }
}

/// The texts to send if nothing counts as sent, given which steps did not fail.
pub fn rich_last_resort(
    steps: &Vec<FallbackStep>,
    outcomes: &Vec<bool>,
    fallback_text: &str,
) -> (r: Vec<String>)
    requires
        outcomes@.len() == steps@.len(),
    ensures
        text::strings(r@) == last_resort(fallback_views(steps@), outcomes@, fallback_text@),
{
    let ghost views = fallback_views(steps@);
    let mut i: usize = 0;
    while i < steps.len()
        invariant
            i <= steps@.len(),
            outcomes@.len() == steps@.len(),
            views == fallback_views(steps@),
            forall|k: int| 0 <= k < i ==> (#[trigger] views[k] is Embed) && !outcomes@[k],
        decreases steps@.len() - i,
    {
        assert(views[i as int] == steps@[i as int]@);
        let counts: bool = match &steps[i] {
            FallbackStep::Embed(_) => outcomes[i],
            FallbackStep::Text(_) => true,
            FallbackStep::Buttons(_) => true,
        };
        if counts {
            assert(any_sent(views, outcomes@));
            let none: Vec<String> = Vec::new();
            assert(text::strings(none@) =~= Seq::<Seq<char>>::empty());
            return none;
        }
        i += 1;
    }
    assert(!any_sent(views, outcomes@));
    chunk_text(fallback_text)
}

// ---------------------------------------------------------------- laws

/// The block has nothing to send by itself: a gallery, a section or a blank text.
pub open spec fn layout_only(b: BlockView) -> bool {
    match b {
        BlockView::ImageGallery { .. } => true,
        BlockView::Section { .. } => true,
        BlockView::PlainText(t) => text::trimmed(t).len() == 0,
        _ => false,
    }
}

/// Blocks that are galleries, sections and blank texts alone leave nothing to send one by one: if
/// their layout fails, the text goes out, whole.
pub proof fn layouts_fall_back_to_text(
    token: Seq<char>,
    channel_id: Seq<char>,
    blocks: Seq<BlockView>,
    outcomes: Seq<bool>,
    fallback_text: Seq<char>,
)
    requires
        forall|i: int| 0 <= i < blocks.len() ==> layout_only(#[trigger] blocks[i]),
    ensures
        fallback(token, channel_id, blocks).len() == 0,
        flattened(last_resort(fallback(token, channel_id, blocks), outcomes, fallback_text))
            == fallback_text,
    decreases blocks.len(),
{
    if blocks.len() > 0 {
        let front = blocks.drop_last();
        assert forall|i: int| 0 <= i < front.len() implies layout_only(#[trigger] front[i]) by {
            assert(front[i] == blocks[i]);
        }
        layouts_fall_back_to_text(token, channel_id, front, outcomes, fallback_text);
        assert(layout_only(blocks[blocks.len() - 1]));
    }
    chunks_are_the_text(fallback_text);
}

/// A text goes out in addition to the blocks only if nothing else did.
pub proof fn text_is_the_last_resort(
    steps: Seq<FallbackView>,
    outcomes: Seq<bool>,
    fallback_text: Seq<char>,
    i: int,
)
    requires
        0 <= i < steps.len(),
        !(steps[i] is Embed) || outcomes[i],
    ensures
        last_resort(steps, outcomes, fallback_text).len() == 0,
{
}

proof fn lemma_shortened_fits(s: Seq<char>, limit: nat, cut: nat)
    requires
        cut + 3 <= limit,
    ensures
        text::byte_len(shortened(s, limit, cut)) <= limit,
{
    reveal_strlit("...");
    reveal_with_fuel(text::byte_len, 4);
    assert("..."@.drop_last() =~= seq!['.', '.']);
    assert(seq!['.', '.'].drop_last() =~= seq!['.']);
    assert(seq!['.'].drop_last() =~= Seq::<char>::empty());
    text::lemma_within_bytes_fits(s, cut);
    text::lemma_byte_len_add(text::within_bytes(s, cut), "..."@);
}

/// An embed that is sent by itself is within what Discord takes: at most 25 fields, and no
/// description, name or value that is too long.
pub proof fn short_embeds_are_within_limits(b: BlockView)
    requires
        b is Embed,
    ensures
        short_embed(b).fields.len() <= FIELD_LIMIT,
        short_embed(b).description matches Some(d) && text::byte_len(d) <= 4096,
        forall|i: int|
            0 <= i < short_embed(b).fields.len() ==> text::byte_len(
                (#[trigger] short_embed(b).fields[i]).name,
            ) <= 256 && text::byte_len(short_embed(b).fields[i].value) <= 1024,
{
    if let BlockView::Embed { description, fields, .. } = b {
        lemma_shortened_fits(description, 4096, 4090);
        assert forall|i: int| 0 <= i < short_embed(b).fields.len() implies text::byte_len(
            (#[trigger] short_embed(b).fields[i]).name,
        ) <= 256 && text::byte_len(short_embed(b).fields[i].value) <= 1024 by {
            let f = first_fields(fields)[i];
            lemma_shortened_fits(f.0, 256, 253);
            lemma_shortened_fits(f.1, 1024, 1021);
            assert(short_embed(b).fields[i] == short_field(f));
        }
    }
}

} // verus!
