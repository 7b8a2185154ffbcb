//! Choices of `/ask` and `/reply`: which attachments are images, and how an
//! answer is sent.
use vstd::prelude::*;
use crate::text::{chars_of, has_prefix, starts_with};
use crate::utils::{decimal, decimal_string};

verus! {

/// An attachment as the commands read it: its content type and its URL.
pub struct AttachmentInfo {
    pub content_type: Option<String>,
    pub url: String,
}

/// Whether an attachment is an image: its content type starts with `image/`.
pub open spec fn is_image(a: AttachmentInfo) -> bool {
    match a.content_type {
        Some(ct) => has_prefix(ct@, "image/"@),
        None => false,
    }
}

/// The URLs of the images among `atts`, in order.
pub open spec fn image_urls_of(atts: Seq<AttachmentInfo>) -> Seq<Seq<char>>
    decreases atts.len(),
{
    if atts.len() == 0 {
        seq![]
    } else if is_image(atts.last()) {
        image_urls_of(atts.drop_last()).push(atts.last().url@)
    } else {
        image_urls_of(atts.drop_last())
    }
}

/// The URL of an attachment is passed on exactly when its content type
/// begins with `image/`, whatever follows the slash; the URLs keep the
/// order of the attachments.
pub proof fn lemma_image_urls_kept(atts: Seq<AttachmentInfo>, a: AttachmentInfo)
    ensures
        image_urls_of(seq![]) == Seq::<Seq<char>>::empty(),
        image_urls_of(atts.push(a)) == image_urls_of(atts) + (if a.content_type matches Some(ct)
            && ct@.len() >= 6 && ct@.take(6) == "image/"@ {
            seq![a.url@]
        } else {
            Seq::<Seq<char>>::empty()
        }),
{
    reveal_strlit("image/");
    assert(atts.push(a).drop_last() =~= atts);
    if is_image(a) {
        assert(image_urls_of(atts).push(a.url@) =~= image_urls_of(atts) + seq![a.url@]);
    } else {
        assert(image_urls_of(atts) + Seq::<Seq<char>>::empty() =~= image_urls_of(atts));
    }
}

/// The URLs of the images among the attachments.
pub fn image_urls_from_attachment(atts: &Vec<AttachmentInfo>) -> (urls: Vec<String>)
    ensures
        urls@.map_values(|u: String| u@) =~= image_urls_of(atts@),
{
    let mut urls: Vec<String> = Vec::new();
    let mut i: usize = 0;
    while i < atts.len()
        invariant
            i <= atts.len(),
            urls@.map_values(|u: String| u@) =~= image_urls_of(atts@.take(i as int)),
        decreases atts.len() - i,
    {
        let a = &atts[i];
        let image = match &a.content_type {
            Some(ct) => starts_with(&chars_of(ct.as_str()), "image/"),
            None => false,
        };
        proof {
            assert(atts@.take(i + 1).drop_last() =~= atts@.take(i as int));
            assert(atts@.take(i + 1).last() == atts@[i as int]);
        }
        if image {
            urls.push(a.url.clone());
        }
        i = i + 1;
    }
    proof {
        assert(atts@.take(atts.len() as int) =~= atts@);
    }
    urls
}

/// How an answer goes out.
pub enum ResponsePlan {
    /// As text, split into as many messages as it takes.
    Say(String),
    /// As one message with this text and the images attached under these names.
    Attach { content: String, filenames: Vec<String> },
}

/// Name of attachment `i` of `n`: `image.png` for a single image, numbered
/// from 1 otherwise.
pub open spec fn spec_filename(i: nat, n: nat) -> Seq<char> {
    if n == 1 { "image.png"@ } else { "image_"@ + decimal(i + 1) + ".png"@ }
}

/// How an answer with `image_count` generated images goes out: text alone
/// when there are none, else one message with the images, which says
/// "Here you go!" when the text is empty.
pub fn plan_response(text: String, image_count: usize) -> (p: ResponsePlan)
    ensures
        image_count == 0 ==> (p matches ResponsePlan::Say(t) && t@ == text@),
        image_count > 0 ==> (p matches ResponsePlan::Attach { content, filenames } && content@ == (if text@.len()
            == 0 {
            "Here you go!"@
        } else {
            text@
        }) && filenames@.len() == image_count && forall|i: int|
            0 <= i < image_count ==> #[trigger] filenames@[i]@ == spec_filename(i as nat, image_count as nat)),
{
    if image_count == 0 {
        return ResponsePlan::Say(text);
    }
    let content = if text.as_str().is_empty() { String::from_str("Here you go!") } else { text };
    let mut filenames: Vec<String> = Vec::new();
    let mut i: usize = 0;
    while i < image_count
        invariant
            i <= image_count,
            image_count > 0,
            filenames@.len() == i,
            forall|k: int| 0 <= k < i ==> #[trigger] filenames@[k]@ == spec_filename(k as nat, image_count as nat),
        decreases image_count - i,
    {
        let name = if image_count == 1 {
            String::from_str("image.png")
        } else {
            let mut s = String::from_str("image_");
            s.append(decimal_string((i as u64) + 1).as_str());
            s.append(".png");
            s
        };
        filenames.push(name);
        i = i + 1;
    }
    ResponsePlan::Attach { content, filenames }
}

} // verus!
