//! The content blocks a published item is assembled from: text, an
//! uploaded image, or a scraped link card. Fetching images and link
//! cards is the driver's work; the block values and the list rules live
//! here.

use vstd::prelude::*;

verus! {

/// An uploaded image: its address and pixel size.
#[derive(Debug)]
pub struct Image {
    pub url: String,
    pub width: usize,
    pub height: usize,
}

/// A scraped link card: its address, title, and preview image.
#[derive(Debug)]
pub struct Link {
    pub url: String,
    pub title: String,
    pub image: String,
}

/// One content block of a published item.
#[derive(Debug)]
pub enum Content {
    Text(String),
    Image(Image),
    Link(Link),
}

impl Content {
    /// A text block.
    pub fn text(text: &str) -> (r: Content)
        ensures
            r matches Content::Text(t) && t@ == text@,
    {
        Content::Text(text.to_owned())
    }
}

/// Append a text block to a content list.
pub fn list_text(list: &mut Vec<Content>, text: &str)
    ensures
        final(list)@.len() == old(list)@.len() + 1,
        forall|k: int| 0 <= k < old(list)@.len() ==> final(list)@[k] == old(list)@[k],
        final(list)@.last() matches Content::Text(t) && t@ == text@,
{
    list.push(Content::text(text));
}

/// A published item's content may not be empty: pad an empty list with
/// one empty text block, and hand any other list back unchanged.
pub fn ensure_nonempty(list: Vec<Content>) -> (r: Vec<Content>)
    ensures
        r@.len() >= 1,
        list@.len() == 0 ==> r@.len() == 1 && (r@[0] matches Content::Text(t) && t@
            == Seq::<char>::empty()),
        list@.len() > 0 ==> r@ == list@,
{
    let mut list = list;
    if list.len() == 0 {
        list_text(&mut list, "");
        proof {
            reveal_strlit("");
        }
    }
    list
}

} // verus!
