//! A message-triggered breach-count relay: recognize a command in one chat
//! message, extract the first email address its text contains, and shape
//! the reply for every outcome of a breach lookup on that address.
pub mod digits;
pub mod dispatch;
pub mod extractor;
pub mod lookup;
