//! The discriminated message record carried by every frame.
//!
//! Text fields (sender, filenames, the text itself) are held as UTF-8 bytes;
//! the display layer turns them into strings.

use vstd::prelude::*;

verus! {

/// The payload of a message. `KeyExchange` is an inert placeholder: the wire
/// protocol defines it, but nothing in the system ever produces or consumes it
/// meaningfully.
pub enum MessageVariant {
    Text(Vec<u8>),
    Image { filename: Vec<u8>, bytes: Vec<u8> },
    Video { filename: Vec<u8>, bytes: Vec<u8> },
    KeyExchange { public_key: Vec<u8> },
}

/// Mathematical model of a `MessageVariant`.
pub enum VariantView {
    Text(Seq<u8>),
    Image { filename: Seq<u8>, bytes: Seq<u8> },
    Video { filename: Seq<u8>, bytes: Seq<u8> },
    KeyExchange { public_key: Seq<u8> },
}

/// One chat message: who sent it, what it carries, and when it was built
/// (unix seconds).
pub struct Message {
    pub sender: Vec<u8>,
    pub variant: MessageVariant,
    pub timestamp: u64,
}

/// Mathematical model of a `Message`.
pub struct MessageView {
    pub sender: Seq<u8>,
    pub variant: VariantView,
    pub timestamp: u64,
}

impl View for MessageVariant {
    type V = VariantView;

    open spec fn view(&self) -> VariantView {
        match self {
            MessageVariant::Text(t) => VariantView::Text(t@),
            MessageVariant::Image { filename, bytes } => VariantView::Image {
                filename: filename@,
                bytes: bytes@,
            },
            MessageVariant::Video { filename, bytes } => VariantView::Video {
                filename: filename@,
                bytes: bytes@,
            },
            MessageVariant::KeyExchange { public_key } => VariantView::KeyExchange {
                public_key: public_key@,
            },
        }
    }
}

impl View for Message {
    type V = MessageView;

    open spec fn view(&self) -> MessageView {
        MessageView { sender: self.sender@, variant: self.variant@, timestamp: self.timestamp }
    }
}

} // verus!
