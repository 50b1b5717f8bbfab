//! Indexing and threading of mail held in a folder-oriented remote store:
//! the folder-name codec, the header-word decoder, the message parser, the
//! identifier index, and the decisions of the operations that walk the store.
pub mod folder;
pub mod index;
pub mod message;
pub mod recent;
pub mod session;
pub mod text;
pub mod words;

pub use folder::{decode_folder_name, decode_folder_names, encode_folder_name};
pub use index::{Location, MessageIndex};
pub use message::{
    email_from_message, last_body, parse_email, Attachment, EmailRecord, MimeMessage, MimePart,
    ParseError, Timestamp,
};
pub use recent::{recent_uids, subjects_by_uid, RECENT_LIMIT};
pub use session::{Enumeration, EnumerationStep, SearchStep, SubjectSearch};
pub use text::{same_text, split_addresses, split_on};
pub use words::decode_words;
