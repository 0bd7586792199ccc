//! One handler per request kind: each consults the registry, changes what
//! the request asks to change, and names the response.

pub mod add_topic;
pub mod delete_topic;
pub mod list_topics;
pub mod ping;
pub mod publish;
pub mod subscribe;
pub mod unsubscribe;

pub use add_topic::AddTopicError;
pub use delete_topic::DeleteTopicError;
pub use publish::PublishError;
pub use subscribe::SubscribeError;
pub use unsubscribe::UnsubscribeError;
