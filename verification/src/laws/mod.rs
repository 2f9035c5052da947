//! What holds of the library, stated of what goes in and what comes out.
pub mod accounts;
pub mod answers;
pub mod chats;
pub mod dispatches;
pub mod forms;
pub mod images;
pub mod replies;
pub mod requests;
pub mod stores;
pub mod texts;
pub mod trees;
pub mod walk;
