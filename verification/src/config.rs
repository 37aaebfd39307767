//! What is fixed when the bridge starts.

use vstd::prelude::*;

verus! {

/// The settings of one bridge: which governance core it follows, how weights
/// are scaled for display, where it posts, which chain it listens to, and how
/// a link that casts a vote is made.
#[derive(Debug)]
pub struct Config {
    core_id: u32,
    display_scale: u128,
    channel: u64,
    endpoint: String,
    vote_link_base: String,
    vote_pallet: u8,
    vote_call: u8,
}

impl Config {
    #[verifier::type_invariant]
    spec fn scale_is_positive(self) -> bool {
        self.display_scale > 0
    }

    /// The governance core whose calls are followed.
    pub closed spec fn followed_core(self) -> u32 {
        self.core_id
    }

    /// The divisor by which raw weights are scaled for display.
    pub closed spec fn scale(self) -> u128 {
        self.display_scale
    }

    /// The channel in which threads are opened.
    pub closed spec fn channel_id(self) -> u64 {
        self.channel
    }

    /// The chain endpoint.
    pub closed spec fn chain(self) -> Seq<char> {
        self.endpoint@
    }

    /// The text in front of the encoded call in a link that casts a vote.
    pub closed spec fn link_base(self) -> Seq<char> {
        self.vote_link_base@
    }

    /// The two bytes that name the chain's call to vote: the index of the
    /// governance module and the index of the call in it.
    pub closed spec fn vote_call_index(self) -> (u8, u8) {
        (self.vote_pallet, self.vote_call)
    }

    /// The settings with these values, or `None` if the display scale is 0,
    /// by which nothing can be divided.
    pub fn new(
        core_id: u32,
        display_scale: u128,
        channel: u64,
        endpoint: String,
        vote_link_base: String,
        vote_pallet: u8,
        vote_call: u8,
    ) -> (config: Option<Config>)
        ensures
            config is None <==> display_scale == 0,
            config matches Some(c) ==> {
                &&& c.followed_core() == core_id
                &&& c.scale() == display_scale
                &&& c.channel_id() == channel
                &&& c.chain() == endpoint@
                &&& c.link_base() == vote_link_base@
                &&& c.vote_call_index() == (vote_pallet, vote_call)
            },
    {
        if display_scale == 0 {
            None
        } else {
            Some(
                Config {
                    core_id,
                    display_scale,
                    channel,
                    endpoint,
                    vote_link_base,
                    vote_pallet,
                    vote_call,
                },
            )
        }
    }

    pub fn core_id(&self) -> (core_id: u32)
        ensures
            core_id == self.followed_core(),
    {
        self.core_id
    }

    pub fn display_scale(&self) -> (scale: u128)
        ensures
            scale == self.scale(),
            scale > 0,
    {
        proof {
            use_type_invariant(self);
        }
        self.display_scale
    }

    pub fn channel(&self) -> (channel: u64)
        ensures
            channel == self.channel_id(),
    {
        self.channel
    }

    pub fn endpoint(&self) -> (endpoint: &str)
        ensures
            endpoint@ == self.chain(),
    {
        self.endpoint.as_str()
    }

    pub fn vote_link_base(&self) -> (base: &str)
        ensures
            base@ == self.link_base(),
    {
        self.vote_link_base.as_str()
    }

    pub fn vote_call(&self) -> (index: (u8, u8))
        ensures
            index == self.vote_call_index(),
    {
        (self.vote_pallet, self.vote_call)
    }
}

} // verus!
