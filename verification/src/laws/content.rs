//! What a chat message says of the parts of a message.
use crate::convert::{flattened, images_of, texts_of};
use crate::laws::gather::gather;
use crate::protocol::{ContentItemView, ImageDetail};
use crate::request::{ChatContentView, ChatMultimodalPartView};
use crate::text::joined;
use vstd::prelude::*;

verus! {

/// The text of a part.
pub open spec fn text_in(part: ContentItemView) -> Seq<Seq<char>> {
    match part {
        ContentItemView::InputText { text } => seq![text],
        ContentItemView::OutputText { text } => seq![text],
        _ => Seq::empty(),
    }
}

/// The image of a part.
pub open spec fn image_in(part: ContentItemView) -> Seq<(Seq<char>, Option<ImageDetail>)> {
    match part {
        ContentItemView::InputImage { image_url, detail } => seq![(image_url, detail)],
        _ => Seq::empty(),
    }
}

/// Whether a name is that of a level of detail.
pub open spec fn names_detail(detail: Option<ImageDetail>, name: Option<Seq<char>>) -> bool {
    match detail {
        Some(ImageDetail::Auto) => name == Some("Auto"@),
        Some(ImageDetail::Low) => name == Some("Low"@),
        Some(ImageDetail::High) => name == Some("High"@),
        Some(ImageDetail::Original) => name == Some("Original"@),
        None => name is None,
    }
}

/// Whether a part of a chat message shows this image, and nothing else.
pub open spec fn shows(
    part: ChatMultimodalPartView,
    image: (Seq<char>, Option<ImageDetail>),
) -> bool {
    &&& part.kind == "image_url"@
    &&& part.text is None
    &&& part.image_url is Some
    &&& part.image_url->0.url == image.0
    &&& names_detail(image.1, part.image_url->0.detail)
}

proof fn lemma_parts(content: Seq<ContentItemView>)
    ensures
        texts_of(content) == gather(content, |part: ContentItemView| text_in(part)),
        ({
            let images = gather(content, |part: ContentItemView| image_in(part));
            &&& images_of(content).len() == images.len()
            &&& forall|i: int|
                0 <= i < images.len() ==> shows(#[trigger] images_of(content)[i], images[i])
        }),
    decreases content.len(),
{
    let texts = |part: ContentItemView| text_in(part);
    let pictures = |part: ContentItemView| image_in(part);
    if content.len() > 0 {
        let shorter = content.drop_last();
        lemma_parts(shorter);
        assert(texts_of(content) =~= gather(content, texts));
        let images = gather(content, pictures);
        assert forall|i: int| 0 <= i < images.len() implies shows(
            #[trigger] images_of(content)[i],
            images[i],
        ) by {
            if i < images_of(shorter).len() {
                assert(images_of(content)[i] == images_of(shorter)[i]);
                assert(images[i] == gather(shorter, pictures)[i]);
            }
        }
    } else {
        assert(texts_of(content) =~= gather(content, texts));
    }
}

/// Nothing of a message is lost. Without images, a chat message says its
/// texts, one to a line. With images, it shows each of them, in order; and
/// where there are texts, all of them, one to a line, follow as one part more,
/// however many images there are.
pub proof fn law_a_message_keeps_its_texts_and_images(content: Seq<ContentItemView>)
    ensures
        ({
            let texts = gather(content, |part: ContentItemView| text_in(part));
            let images = gather(content, |part: ContentItemView| image_in(part));
            if images.len() == 0 {
                flattened(content) == ChatContentView::Text(joined(texts, "\n"@))
            } else {
                &&& flattened(content) matches ChatContentView::Multimodal(parts)
                &&& parts.len() == images.len() + if texts.len() > 0 {
                    1int
                } else {
                    0int
                }
                &&& forall|i: int|
                    0 <= i < images.len() ==> shows(#[trigger] parts[i], images[i])
                &&& texts.len() > 0 ==> {
                    &&& parts.last().kind == "text"@
                    &&& parts.last().text == Some(joined(texts, "\n"@))
                    &&& parts.last().image_url is None
                }
            }
        }),
{
    lemma_parts(content);
    let images = gather(content, |part: ContentItemView| image_in(part));
    if images.len() > 0 {
        let parts = flattened(content)->Multimodal_0;
        assert forall|i: int| 0 <= i < images.len() implies shows(
            #[trigger] parts[i],
            images[i],
        ) by {
            assert(parts[i] == images_of(content)[i]);
        }
    }
}

} // verus!
