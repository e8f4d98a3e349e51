/*!
A verified mail toolkit: RFC 5322 email-address validation and parsing,
and SMTP reply-line framing with capability negotiation.
*/

pub mod chars;
pub mod connection;
pub mod credentials;
pub mod ehlo;
pub mod email_address;
pub mod error;
pub mod extension;
pub mod grammar;
pub mod mail_box;
pub mod statement;
pub mod textbytes;
pub mod validation;
pub mod wire;
