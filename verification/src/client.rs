//! Client assembly: the builder's validation and the text actually sent.

use vstd::prelude::*;
use crate::error::Error;
use crate::messaging::markdown_filter::{filtered, StreamingMarkdownFilter};

verus! {

/// Builder of a client: a configuration and, once set, a message handler.
pub struct WeixinClientBuilder<C, H> {
    config: C,
    handler: Option<H>,
}

impl<C, H> WeixinClientBuilder<C, H> {
    pub closed spec fn config_value(&self) -> C {
        self.config
    }

    pub closed spec fn handler_value(&self) -> Option<H> {
        self.handler
    }

    /// A builder holding `config` and no handler yet.
    pub fn new(config: C) -> (r: Self)
        ensures
            r.config_value() == config,
            r.handler_value() is None,
    {
        WeixinClientBuilder { config, handler: None }
    }

    /// Set the message handler.
    pub fn on_message(self, handler: H) -> (r: Self)
        ensures
            r.config_value() == self.config_value(),
            r.handler_value() == Some(handler),
    {
        WeixinClientBuilder { config: self.config, handler: Some(handler) }
    }

    /// The configuration and handler the client is built from; a handler is
    /// required.
    pub fn build(self) -> (r: Result<(C, H), Error>)
        ensures
            match self.handler_value() {
                Some(h) => r == Ok::<(C, H), Error>((self.config_value(), h)),
                None => r matches Err(Error::Config(m)) && m@ == "message handler is required"@,
            },
    {
        match self.handler {
            Some(h) => Ok((self.config, h)),
            None => Err(Error::Config(String::from_str("message handler is required"))),
        }
    }
}

/// The text sent for `text`: markdown-filtered when filtering is enabled.
pub fn outbound_text(text: &str, filter_markdown: bool) -> (r: String)
    ensures
        r@ == if filter_markdown {
            filtered(text@, false).0
        } else {
            text@
        },
{
    if filter_markdown {
        StreamingMarkdownFilter::filter(text)
    } else {
        text.to_owned()
    }
}

} // verus!
