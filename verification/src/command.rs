//! What the chat surface is asked to do, and the text it is asked to show.

use vstd::prelude::*;
use vstd::bytes::{spec_u32_to_le_bytes, u32_to_le_bytes};
use vstd::string::StringExecFns;
use crate::config::Config;
use crate::event::ExecutionOutcome;
use crate::identity::{AccountId, CallId};
use crate::record::push_all;
use crate::state::CallState;
use crate::text::{account_address, address_text, decimal_text, hex_encode, hex_text, push_decimal};
use crate::vote::Vote;
use crate::voters::VoterMap;

verus! {

/// A raw weight as it is shown: divided by the display scale, in decimal.
pub open spec fn amount_text(weight: u128, scale: u128) -> Seq<char> {
    decimal_text((weight / scale) as nat)
}

/// The word for a vote's stance.
pub open spec fn stance_text(vote: Vote) -> Seq<char> {
    if vote is Aye {
        "Aye"@
    } else {
        "Nay"@
    }
}

/// One line of the list of voters: who, how much, which way.
pub open spec fn voter_line_text(name: Seq<char>, vote: Vote, scale: u128) -> Seq<char> {
    name + " - "@ + amount_text(vote.weight(), scale) + " - "@ + stance_text(vote)
}

/// The list of voters: for each, in the order of the list, a line break and
/// their line.
pub open spec fn voter_list_text(ballots: Seq<(Seq<u8>, Vote)>, scale: u128) -> Seq<char>
    decreases ballots.len(),
{
    if ballots.len() == 0 {
        Seq::empty()
    } else {
        voter_list_text(ballots.drop_last(), scale) + "\n"@ + voter_line_text(
            address_text(ballots.last().0),
            ballots.last().1,
            scale,
        )
    }
}

/// A call identifier as it is shown.
pub open spec fn call_hash_text(call_id: Seq<u8>) -> Seq<char> {
    "0x"@ + hex_text(call_id)
}

/// The line that names the followed core.
pub open spec fn core_text(core_id: u32) -> Seq<char> {
    "Core ID: "@ + decimal_text(core_id as nat)
}

/// The chain's call by which an account votes aye on `call_id`, as bytes:
/// the two bytes that name the call, the core (4 bytes little-endian), the
/// call identifier, and one byte 1 for aye.
pub open spec fn vote_call_bytes(index: (u8, u8), core_id: u32, call_id: Seq<u8>) -> Seq<u8> {
    seq![index.0, index.1] + spec_u32_to_le_bytes(core_id) + call_id + seq![1u8]
}

/// The link that casts an aye vote on `call_id`.
pub open spec fn vote_link_text(config: Config, call_id: Seq<u8>) -> Seq<char> {
    config.link_base() + hex_text(
        vote_call_bytes(config.vote_call_index(), config.followed_core(), call_id),
    )
}

/// What a thread shows of an open call.
#[derive(Debug, PartialEq, Eq)]
pub struct ThreadContent {
    pub heading: String,
    pub description: String,
    pub author: String,
    pub aye_votes: String,
    pub nay_votes: String,
    pub voters: String,
    pub call_hash: String,
    pub call: String,
}

pub struct ThreadContentView {
    pub heading: Seq<char>,
    pub description: Seq<char>,
    pub author: Seq<char>,
    pub aye_votes: Seq<char>,
    pub nay_votes: Seq<char>,
    pub voters: Seq<char>,
    pub call_hash: Seq<char>,
    pub call: Seq<char>,
}

impl View for ThreadContent {
    type V = ThreadContentView;

    open spec fn view(&self) -> ThreadContentView {
        ThreadContentView {
            heading: self.heading@,
            description: self.description@,
            author: self.author@,
            aye_votes: self.aye_votes@,
            nay_votes: self.nay_votes@,
            voters: self.voters@,
            call_hash: self.call_hash@,
            call: self.call@,
        }
    }
}

/// What the last message of a thread shows of an executed call.
#[derive(Debug, PartialEq, Eq)]
pub struct ClosingContent {
    pub heading: String,
    pub description: String,
    pub author: String,
    pub call_hash: String,
    pub call: String,
    pub result: String,
}

pub struct ClosingContentView {
    pub heading: Seq<char>,
    pub description: Seq<char>,
    pub author: Seq<char>,
    pub call_hash: Seq<char>,
    pub call: Seq<char>,
    pub result: Seq<char>,
}

impl View for ClosingContent {
    type V = ClosingContentView;

    open spec fn view(&self) -> ClosingContentView {
        ClosingContentView {
            heading: self.heading@,
            description: self.description@,
            author: self.author@,
            call_hash: self.call_hash@,
            call: self.call@,
            result: self.result@,
        }
    }
}

/// Open a thread for a call.
#[derive(Debug, PartialEq, Eq)]
pub struct CreateThread {
    pub title: String,
    pub content: ThreadContent,
    pub vote_link: String,
}

pub struct CreateThreadView {
    pub title: Seq<char>,
    pub content: ThreadContentView,
    pub vote_link: Seq<char>,
}

impl View for CreateThread {
    type V = CreateThreadView;

    open spec fn view(&self) -> CreateThreadView {
        CreateThreadView {
            title: self.title@,
            content: self.content@,
            vote_link: self.vote_link@,
        }
    }
}

/// Replace what a call's thread shows.
#[derive(Debug, PartialEq, Eq)]
pub struct UpdateThread {
    pub thread_handle: u64,
    pub content: ThreadContent,
}

pub struct UpdateThreadView {
    pub thread_handle: u64,
    pub content: ThreadContentView,
}

impl View for UpdateThread {
    type V = UpdateThreadView;

    open spec fn view(&self) -> UpdateThreadView {
        UpdateThreadView { thread_handle: self.thread_handle, content: self.content@ }
    }
}

/// Post the result of a call in its thread, then archive and lock the thread.
#[derive(Debug, PartialEq, Eq)]
pub struct CloseThread {
    pub thread_handle: u64,
    pub content: ClosingContent,
    pub succeeded: bool,
}

pub struct CloseThreadView {
    pub thread_handle: u64,
    pub content: ClosingContentView,
    pub succeeded: bool,
}

impl View for CloseThread {
    type V = CloseThreadView;

    open spec fn view(&self) -> CloseThreadView {
        CloseThreadView {
            thread_handle: self.thread_handle,
            content: self.content@,
            succeeded: self.succeeded,
        }
    }
}

/// A raw weight as it is shown.
pub fn amount(config: &Config, weight: u128) -> (text: String)
    ensures
        text@ == amount_text(weight, config.scale()),
{
    let scale = config.display_scale();
    crate::text::decimal(weight / scale)
}

/// One line of the list of voters, for a voter shown as `name`.
pub fn voter_line(config: &Config, name: &str, vote: Vote) -> (line: String)
    ensures
        line@ == voter_line_text(name@, vote, config.scale()),
{
    let scale = config.display_scale();
    let mut line = String::from_str(name);
    line.append(" - ");
    push_decimal(&mut line, vote.raw_weight() / scale);
    line.append(" - ");
    line.append(
        if vote.is_aye() {
            "Aye"
        } else {
            "Nay"
        },
    );
    line
}

/// The list of voters, each under their address.
pub fn voter_list(config: &Config, voters: &VoterMap) -> (list: String)
    ensures
        list@ == voter_list_text(voters.ballots(), config.scale()),
{
    let ghost ballots = voters.ballots();
    let n = voters.len();
    let mut list = String::new();
    let mut i: usize = 0;
    while i < n
        invariant
            0 <= i <= n,
            n == ballots.len(),
            ballots == voters.ballots(),
            list@ == voter_list_text(ballots.take(i as int), config.scale()),
        decreases n - i,
    {
        let entry = voters.entry(i);
        let name = account_address(&entry.voter);
        let line = voter_line(config, name.as_str(), entry.vote);
        list.append("\n");
        list.append(line.as_str());
        proof {
            let upto = ballots.take(i + 1);
            assert(upto.drop_last() =~= ballots.take(i as int));
            assert(upto.last() == (entry.voter@, entry.vote));
            assert(list@ =~= voter_list_text(upto, config.scale()));
        }
        i += 1;
    }
    assert(ballots.take(n as int) =~= ballots);
    list
}

/// A call identifier as it is shown.
pub fn call_hash(call_id: &CallId) -> (text: String)
    ensures
        text@ == call_hash_text(call_id@),
{
    let digits = hex_encode(call_id.bytes.as_slice());
    let mut text = String::from_str("0x");
    text.append(digits.as_str());
    text
}

/// The title of a call's thread: the call identifier in hexadecimal.
pub fn thread_title(call_id: &CallId) -> (title: String)
    ensures
        title@ == hex_text(call_id@),
{
    hex_encode(call_id.bytes.as_slice())
}

/// The line that names the followed core.
pub fn core_line(config: &Config) -> (line: String)
    ensures
        line@ == core_text(config.followed_core()),
{
    let mut line = String::from_str("Core ID: ");
    push_decimal(&mut line, config.core_id() as u128);
    line
}

/// The chain's call by which an account votes aye on `call_id`, as bytes.
pub fn vote_call(config: &Config, call_id: &CallId) -> (bytes: Vec<u8>)
    ensures
        bytes@ == vote_call_bytes(config.vote_call_index(), config.followed_core(), call_id@),
{
    let index = config.vote_call();
    let mut bytes: Vec<u8> = Vec::new();
    bytes.push(index.0);
    bytes.push(index.1);
    let core = u32_to_le_bytes(config.core_id());
    push_all(&mut bytes, core.as_slice());
    push_all(&mut bytes, call_id.bytes.as_slice());
    bytes.push(1u8);
    assert(bytes@ =~= vote_call_bytes(
        config.vote_call_index(),
        config.followed_core(),
        call_id@,
    ));
    bytes
}

/// The link that casts an aye vote on `call_id`.
pub fn vote_link(config: &Config, call_id: &CallId) -> (link: String)
    ensures
        link@ == vote_link_text(*config, call_id@),
{
    let call = vote_call(config, call_id);
    let digits = hex_encode(call.as_slice());
    let mut link = String::from_str(config.vote_link_base());
    link.append(digits.as_str());
    link
}

/// What the thread of a newly proposed call shows, where the proposer and
/// the voter are shown under these names: the tally is the voter's vote
/// alone.
pub open spec fn opening_view(
    config: Config,
    proposer_name: Seq<char>,
    voter_name: Seq<char>,
    vote: Vote,
    call_id: Seq<u8>,
    call: Seq<char>,
) -> ThreadContentView {
    ThreadContentView {
        heading: "New Multisig Call"@,
        description: core_text(config.followed_core()) + ", account: "@ + proposer_name,
        author: "Author: "@ + voter_name,
        aye_votes: amount_text(vote.ayes(), config.scale()),
        nay_votes: amount_text(vote.nays(), config.scale()),
        voters: voter_line_text(voter_name, vote, config.scale()),
        call_hash: call_hash_text(call_id),
        call,
    }
}

/// What the thread of a call shows after a vote, where the proposer is shown
/// as `author_name` and the voters as `voter_list`: the totals are those
/// given.
pub open spec fn tally_view(
    config: Config,
    author_name: Seq<char>,
    ayes: u128,
    nays: u128,
    voter_list: Seq<char>,
    call_id: Seq<u8>,
    call: Seq<char>,
) -> ThreadContentView {
    ThreadContentView {
        heading: "New Multisig Call"@,
        description: core_text(config.followed_core()),
        author: "Author: "@ + author_name,
        aye_votes: amount_text(ayes, config.scale()),
        nay_votes: amount_text(nays, config.scale()),
        voters: voter_list,
        call_hash: call_hash_text(call_id),
        call,
    }
}

/// The word for how an execution ended.
pub open spec fn outcome_text(outcome: ExecutionOutcome) -> Seq<char> {
    match outcome {
        ExecutionOutcome::Succeeded => "Successful"@,
        ExecutionOutcome::Failed => "Error"@,
    }
}

/// What the last message of a thread shows, where the last voter is shown as
/// `voter_name`.
pub open spec fn closing_view(
    config: Config,
    voter_name: Seq<char>,
    call_id: Seq<u8>,
    call: Seq<char>,
    outcome: ExecutionOutcome,
) -> ClosingContentView {
    ClosingContentView {
        heading: "Multisig Call Executed"@,
        description: core_text(config.followed_core()),
        author: "Last voter: "@ + voter_name,
        call_hash: call_hash_text(call_id),
        call,
        result: outcome_text(outcome),
    }
}

/// The command that opens the thread of a newly proposed call: proposer and
/// voter are shown under their addresses.
pub open spec fn create_view(
    config: Config,
    proposer: Seq<u8>,
    voter: Seq<u8>,
    vote: Vote,
    call_id: Seq<u8>,
    call: Seq<char>,
) -> CreateThreadView {
    CreateThreadView {
        title: hex_text(call_id),
        content: opening_view(
            config,
            address_text(proposer),
            address_text(voter),
            vote,
            call_id,
            call,
        ),
        vote_link: vote_link_text(config, call_id),
    }
}

/// The command that shows a call's votes in its thread: the totals are
/// those given, the proposer and the voters are shown under their addresses.
pub open spec fn update_view(
    config: Config,
    thread_handle: u64,
    proposer: Seq<u8>,
    ayes: u128,
    nays: u128,
    ballots: Seq<(Seq<u8>, Vote)>,
    call_id: Seq<u8>,
    call: Seq<char>,
) -> UpdateThreadView {
    UpdateThreadView {
        thread_handle,
        content: tally_view(
            config,
            address_text(proposer),
            ayes,
            nays,
            voter_list_text(ballots, config.scale()),
            call_id,
            call,
        ),
    }
}

/// The command that posts how a call ended and closes its thread: the last
/// voter is shown under their address.
pub open spec fn close_view(
    config: Config,
    thread_handle: u64,
    voter: Seq<u8>,
    call_id: Seq<u8>,
    call: Seq<char>,
    outcome: ExecutionOutcome,
) -> CloseThreadView {
    CloseThreadView {
        thread_handle,
        content: closing_view(config, address_text(voter), call_id, call, outcome),
        succeeded: outcome == ExecutionOutcome::Succeeded,
    }
}

/// Builds what the thread of a newly proposed call shows.
pub fn opening_content(
    config: &Config,
    proposer_name: &str,
    voter_name: &str,
    vote: Vote,
    call_id: &CallId,
    call: &str,
) -> (content: ThreadContent)
    ensures
        content@ == opening_view(*config, proposer_name@, voter_name@, vote, call_id@, call@),
{
    let mut description = core_line(config);
    description.append(", account: ");
    description.append(proposer_name);
    let mut author = String::from_str("Author: ");
    author.append(voter_name);
    ThreadContent {
        heading: String::from_str("New Multisig Call"),
        description,
        author,
        aye_votes: amount(config, vote.aye_weight()),
        nay_votes: amount(config, vote.nay_weight()),
        voters: voter_line(config, voter_name, vote),
        call_hash: call_hash(call_id),
        call: String::from_str(call),
    }
}

/// Builds what the thread of a call shows after a vote.
pub fn tally_content(
    config: &Config,
    author_name: &str,
    ayes: u128,
    nays: u128,
    voter_list: String,
    call_id: &CallId,
    call: &str,
) -> (content: ThreadContent)
    ensures
        content@ == tally_view(*config, author_name@, ayes, nays, voter_list@, call_id@, call@),
{
    let mut author = String::from_str("Author: ");
    author.append(author_name);
    ThreadContent {
        heading: String::from_str("New Multisig Call"),
        description: core_line(config),
        author,
        aye_votes: amount(config, ayes),
        nay_votes: amount(config, nays),
        voters: voter_list,
        call_hash: call_hash(call_id),
        call: String::from_str(call),
    }
}

/// Builds what the last message of a thread shows.
pub fn closing_content(
    config: &Config,
    voter_name: &str,
    call_id: &CallId,
    call: &str,
    outcome: ExecutionOutcome,
) -> (content: ClosingContent)
    ensures
        content@ == closing_view(*config, voter_name@, call_id@, call@, outcome),
{
    let mut author = String::from_str("Last voter: ");
    author.append(voter_name);
    ClosingContent {
        heading: String::from_str("Multisig Call Executed"),
        description: core_line(config),
        author,
        call_hash: call_hash(call_id),
        call: String::from_str(call),
        result: String::from_str(
            match outcome {
                ExecutionOutcome::Succeeded => "Successful",
                ExecutionOutcome::Failed => "Error",
            },
        ),
    }
}

/// Builds the command that opens the thread of a newly proposed call.
pub fn create_thread(
    config: &Config,
    proposer: &AccountId,
    voter: &AccountId,
    vote: Vote,
    call_id: &CallId,
    call: &str,
) -> (command: CreateThread)
    ensures
        command@ == create_view(*config, proposer@, voter@, vote, call_id@, call@),
{
    let voter_name = account_address(voter);
    let proposer_name = account_address(proposer);
    let content = opening_content(
        config,
        proposer_name.as_str(),
        voter_name.as_str(),
        vote,
        call_id,
        call,
    );
    CreateThread { title: thread_title(call_id), content, vote_link: vote_link(config, call_id) }
}

/// Builds the command that shows a call's votes in its thread: the totals
/// `ayes` and `nays` as given, and the voters of `state`.
pub fn update_thread(config: &Config, state: &CallState, ayes: u128, nays: u128, call: &str) -> (command:
    UpdateThread)
    ensures
        command@ == update_view(
            *config,
            state.thread_handle,
            state.proposer@,
            ayes,
            nays,
            state.voters.ballots(),
            state.call_id@,
            call@,
        ),
{
    let proposer_name = account_address(&state.proposer);
    let content = tally_content(
        config,
        proposer_name.as_str(),
        ayes,
        nays,
        voter_list(config, &state.voters),
        &state.call_id,
        call,
    );
    UpdateThread { thread_handle: state.thread_handle, content }
}

/// Builds the command that posts how a call ended and closes its thread.
pub fn close_thread(
    config: &Config,
    thread_handle: u64,
    voter: &AccountId,
    call_id: &CallId,
    call: &str,
    outcome: ExecutionOutcome,
) -> (command: CloseThread)
    ensures
        command@ == close_view(*config, thread_handle, voter@, call_id@, call@, outcome),
{
    let voter_name = account_address(voter);
    let content = closing_content(config, voter_name.as_str(), call_id, call, outcome);
    let succeeded = match outcome {
        ExecutionOutcome::Succeeded => true,
        ExecutionOutcome::Failed => false,
    };
    CloseThread { thread_handle, content, succeeded }
}

} // verus!
