//! One line of the control protocol: what it asks, what the registry does
//! about it, and the line that answers it.

use vstd::prelude::*;
use vstd::string::*;
use crate::address::{
    is_canonical, is_mac_format, lemma_normalized_is_canonical, normalize, normalized,
};
use crate::gateway::{block_command, block_command_text, unblock_command, unblock_command_text};
use crate::registry::{
    block_result, blocked_after, blocked_status, is_blocklist, texts, unblock_result,
    unblocked_after, BlockOutcome, FirewallServer, RegistryError,
};
use crate::text::{
    chars_of, decimal, decimal_string, find_trimmed_end, find_word_end, find_word_start,
    first_word, is_ascii_text, is_whitespace, join, joined, lemma_skip_back_whitespace_stays_inside,
    lemma_skip_whitespace_stays_inside, lemma_skip_word_takes_the_run, same_text, second_word,
    skip_back_whitespace, skip_whitespace, string_of, to_upper_case, trim, upper_case,
};

verus! {

/// What a line asks for.
#[derive(Debug, PartialEq, Eq)]
pub enum Request {
    /// Block the address.
    Block { address: String },
    /// Unblock the address.
    Unblock { address: String },
    /// Tell whether the address is blocked.
    Check { address: String },
    /// List the blocked addresses.
    List,
}

/// A request, with its text as a sequence of characters.
pub enum RequestView {
    Block { address: Seq<char> },
    Unblock { address: Seq<char> },
    Check { address: Seq<char> },
    List,
}

impl View for Request {
    type V = RequestView;

    open spec fn view(&self) -> RequestView {
        match self {
            Request::Block { address } => RequestView::Block { address: address@ },
            Request::Unblock { address } => RequestView::Unblock { address: address@ },
            Request::Check { address } => RequestView::Check { address: address@ },
            Request::List => RequestView::List,
        }
    }
}

/// How a request is answered.
#[derive(Debug, PartialEq, Eq)]
pub enum Response {
    /// The address is blocked: it was added now, or was there already.
    Blocked { address: String, outcome: BlockOutcome },
    /// The address could not be blocked, for another reason than its syntax.
    /// The registry has no such failure, so no request is answered this way;
    /// the protocol keeps the line.
    BlockFailed { address: String, reason: String },
    /// The address was taken out.
    Removed { address: String },
    /// The text is no well-formed address.
    InvalidFormat { address: String },
    /// The address to unblock is not blocked.
    NotBlocked { address: String },
    /// The blocked addresses.
    Listing { addresses: Vec<String> },
    /// Whether the address is blocked.
    Status { address: String, blocked: bool },
}

/// A response, with its texts as sequences of characters.
pub enum ResponseView {
    Blocked { address: Seq<char>, outcome: BlockOutcome },
    BlockFailed { address: Seq<char>, reason: Seq<char> },
    Removed { address: Seq<char> },
    InvalidFormat { address: Seq<char> },
    NotBlocked { address: Seq<char> },
    Listing { addresses: Seq<Seq<char>> },
    Status { address: Seq<char>, blocked: bool },
}

impl View for Response {
    type V = ResponseView;

    open spec fn view(&self) -> ResponseView {
        match self {
            Response::Blocked { address, outcome } => ResponseView::Blocked {
                address: address@,
                outcome: *outcome,
            },
            Response::BlockFailed { address, reason } => ResponseView::BlockFailed {
                address: address@,
                reason: reason@,
            },
            Response::Removed { address } => ResponseView::Removed { address: address@ },
            Response::InvalidFormat { address } => ResponseView::InvalidFormat {
                address: address@,
            },
            Response::NotBlocked { address } => ResponseView::NotBlocked { address: address@ },
            Response::Listing { addresses } => ResponseView::Listing {
                addresses: texts(addresses@),
            },
            Response::Status { address, blocked } => ResponseView::Status {
                address: address@,
                blocked: *blocked,
            },
        }
    }
}

/// The request that a keyword stands for. `keyword` is the first word of the
/// line in upper case, `argument` the address that a keyword takes, `whole`
/// the line without the whitespace at its ends. Any first word that is no
/// keyword makes the whole line an address to block.
pub open spec fn request_of(keyword: Seq<char>, argument: Seq<char>, whole: Seq<char>)
    -> RequestView {
    if keyword == "UNBLOCK"@ {
        RequestView::Unblock { address: argument }
    } else if keyword == "LIST"@ {
        RequestView::List
    } else if keyword == "CHECK"@ {
        RequestView::Check { address: argument }
    } else {
        RequestView::Block { address: whole }
    }
}

/// What a line asks for; nothing, where it is blank. The keyword is the
/// first word, in whatever case it is written. Its argument is the second
/// word, and the whole line where there is no second word; what follows the
/// second word is not looked at.
pub open spec fn parsed(line: Seq<char>) -> Option<RequestView> {
    let whole = trim(line);
    if whole.len() == 0 {
        None
    } else {
        let argument = match second_word(line) {
            Some(word) => word,
            None => whole,
        };
        Some(request_of(upper_case(first_word(line)), argument, whole))
    }
}

/// How the registry with the content `list` answers a request.
pub open spec fn answer(list: Seq<Seq<char>>, request: RequestView) -> ResponseView {
    match request {
        RequestView::Block { address } => match block_result(list, address) {
            Ok(outcome) => ResponseView::Blocked { address, outcome },
            Err(_) => ResponseView::InvalidFormat { address },
        },
        RequestView::Unblock { address } => match unblock_result(list, address) {
            Ok(_) => ResponseView::Removed { address },
            Err(RegistryError::NotBlocked) => ResponseView::NotBlocked { address },
            Err(RegistryError::InvalidFormat) => ResponseView::InvalidFormat { address },
        },
        RequestView::Check { address } => match blocked_status(list, address) {
            Ok(blocked) => ResponseView::Status { address, blocked },
            Err(_) => ResponseView::InvalidFormat { address },
        },
        RequestView::List => ResponseView::Listing { addresses: list },
    }
}

/// The content of the registry after a request, where it was `list` before.
pub open spec fn list_after(list: Seq<Seq<char>>, request: RequestView) -> Seq<Seq<char>> {
    match request {
        RequestView::Block { address } => blocked_after(list, address),
        RequestView::Unblock { address } => unblocked_after(list, address),
        _ => list,
    }
}

/// The line that carries a response to the client, line break included.
pub open spec fn wire_text(response: ResponseView) -> Seq<char> {
    match response {
        ResponseView::Blocked { address, outcome } => "Blocked MAC: "@ + address + "\n"@,
        ResponseView::BlockFailed { address, reason } => "Failed to block "@ + address + ": "@
            + reason + "\n"@,
        ResponseView::Removed { address } => "Removed "@ + address + " from blocklist"@ + "\n"@,
        ResponseView::InvalidFormat { address } => "Invalid MAC address format: "@ + address
            + "\n"@,
        ResponseView::NotBlocked { address } => "MAC "@ + address + " not in blocklist"@ + "\n"@,
        ResponseView::Listing { addresses } => "Blocked MACs ("@ + decimal(addresses.len())
            + "): "@ + joined(addresses, ", "@) + "\n"@,
        ResponseView::Status { address, blocked } => "MAC "@ + address + ": "@ + (if blocked {
            "BLOCKED"@
        } else {
            "NOT BLOCKED"@
        }) + "\n"@,
    }
}

/// Whether a response tells of a change to the registry, after which the
/// record is to be written again.
pub open spec fn tells_of_change(response: ResponseView) -> bool {
    match response {
        ResponseView::Blocked { address, outcome } => outcome is Added,
        ResponseView::Removed { address } => true,
        _ => false,
    }
}

/// The command for the packet filter that follows a response: one that adds
/// a rule after an address was added, one that removes it after an address
/// was taken out, each for the stored form of the address; none after
/// anything else.
pub open spec fn enforcement_text(response: ResponseView) -> Option<Seq<char>> {
    match response {
        ResponseView::Blocked { address, outcome } => if outcome is Added && is_mac_format(
            address,
        ) {
            Some(block_command_text(normalized(address)))
        } else {
            None
        },
        ResponseView::Removed { address } => if is_mac_format(address) {
            Some(unblock_command_text(normalized(address)))
        } else {
            None
        },
        _ => None,
    }
}

/// The request that a keyword stands for. `keyword` is the first word of the
/// line, already in upper case.
pub fn request_for(keyword: &str, argument: String, whole: String) -> (r: Request)
    ensures
        r@ == request_of(keyword@, argument@, whole@),
{
    if same_text(keyword, "UNBLOCK") {
        Request::Unblock { address: argument }
    } else if same_text(keyword, "LIST") {
        Request::List
    } else if same_text(keyword, "CHECK") {
        Request::Check { address: argument }
    } else {
        Request::Block { address: whole }
    }
}

/// Reads what a line asks for. A blank line asks for nothing.
pub fn parse_line(line: &str) -> (r: Option<Request>)
    ensures
        match r {
            Some(request) => parsed(line@) == Some(request@),
            None => parsed(line@) is None,
        },
{
    let v = chars_of(line);
    let start = find_word_start(&v, 0);
    let end = find_trimmed_end(&v);
    if start >= end {
        return None;
    }
    let whole = string_of(&v, start, end);
    let keyword_end = find_word_end(&v, start);
    let keyword = string_of(&v, start, keyword_end);
    let second = find_word_start(&v, keyword_end);
    let argument = if second < v.len() {
        let second_end = find_word_end(&v, second);
        string_of(&v, second, second_end)
    } else {
        whole.clone()
    };
    let upper = to_upper_case(keyword.as_str());
    Some(request_for(upper.as_str(), argument, whole))
}

impl Response {
    /// The line that carries the response to the client, line break
    /// included.
    pub fn render(&self) -> (r: String)
        ensures
            r@ == wire_text(self@),
    {
        match self {
            Response::Blocked { address, outcome } => {
                let mut r = String::from_str("Blocked MAC: ");
                r.append(address.as_str());
                r.append("\n");
                r
            },
            Response::BlockFailed { address, reason } => {
                let mut r = String::from_str("Failed to block ");
                r.append(address.as_str());
                r.append(": ");
                r.append(reason.as_str());
                r.append("\n");
                r
            },
            Response::Removed { address } => {
                let mut r = String::from_str("Removed ");
                r.append(address.as_str());
                r.append(" from blocklist");
                r.append("\n");
                r
            },
            Response::InvalidFormat { address } => {
                let mut r = String::from_str("Invalid MAC address format: ");
                r.append(address.as_str());
                r.append("\n");
                r
            },
            Response::NotBlocked { address } => {
                let mut r = String::from_str("MAC ");
                r.append(address.as_str());
                r.append(" not in blocklist");
                r.append("\n");
                r
            },
            Response::Listing { addresses } => {
                let mut r = String::from_str("Blocked MACs (");
                r.append(decimal_string(addresses.len() as u64).as_str());
                r.append("): ");
                r.append(join(addresses, ", ").as_str());
                r.append("\n");
                r
            },
            Response::Status { address, blocked } => {
                let mut r = String::from_str("MAC ");
                r.append(address.as_str());
                r.append(": ");
                if *blocked {
                    r.append("BLOCKED");
                } else {
                    r.append("NOT BLOCKED");
                }
                r.append("\n");
                r
            },
        }
    }

    /// Whether the response tells of a change to the registry, after which
    /// the record is to be written again.
    pub fn changed(&self) -> (r: bool)
        ensures
            r == tells_of_change(self@),
    {
        match self {
            Response::Blocked { address, outcome } => match outcome {
                BlockOutcome::Added { total } => true,
                BlockOutcome::AlreadyBlocked { total } => false,
            },
            Response::Removed { address } => true,
            _ => false,
        }
    }

    /// The command for the packet filter that follows the response, if any.
    pub fn enforcement_command(&self) -> (r: Option<String>)
        ensures
            match r {
                Some(command) => enforcement_text(self@) == Some(command@),
                None => enforcement_text(self@) is None,
            },
    {
        match self {
            Response::Blocked { address, outcome } => match outcome {
                BlockOutcome::Added { total } => match normalize(address.as_str()) {
                    Some(stored) => Some(block_command(stored.as_str())),
                    None => None,
                },
                BlockOutcome::AlreadyBlocked { total } => None,
            },
            Response::Removed { address } => match normalize(address.as_str()) {
                Some(stored) => Some(unblock_command(stored.as_str())),
                None => None,
            },
            _ => None,
        }
    }
}

impl FirewallServer {
    /// Carries out a request and answers it.
    pub fn execute(&mut self, request: Request) -> (r: Response)
        ensures
            r@ == answer(old(self).addresses(), request@),
            final(self).addresses() == list_after(old(self).addresses(), request@),
            is_blocklist(final(self).addresses()),
    {
        match request {
            Request::Block { address } => match self.block_mac(address.as_str()) {
                Ok(outcome) => Response::Blocked { address, outcome },
                Err(_) => Response::InvalidFormat { address },
            },
            Request::Unblock { address } => match self.unblock_mac(address.as_str()) {
                Ok(_) => Response::Removed { address },
                Err(RegistryError::NotBlocked) => Response::NotBlocked { address },
                Err(RegistryError::InvalidFormat) => Response::InvalidFormat { address },
            },
            Request::Check { address } => {
                proof {
                    use_type_invariant(&*self);
                }
                match self.is_blocked(address.as_str()) {
                    Ok(blocked) => Response::Status { address, blocked },
                    Err(_) => Response::InvalidFormat { address },
                }
            },
            Request::List => Response::Listing { addresses: self.get_blocklist() },
        }
    }

    /// Handles one line of a session: reads what it asks for, carries it
    /// out, and answers. A blank line is passed over: nothing changes and
    /// nothing is answered.
    pub fn handle_line(&mut self, line: &str) -> (r: Option<Response>)
        ensures
            match r {
                Some(response) => parsed(line@) matches Some(request) && response@ == answer(
                    old(self).addresses(),
                    request,
                ) && final(self).addresses() == list_after(old(self).addresses(), request),
                None => parsed(line@) is None && final(self).addresses() == old(
                    self,
                ).addresses(),
            },
            is_blocklist(final(self).addresses()),
    {
        match parse_line(line) {
            Some(request) => Some(self.execute(request)),
            None => {
                proof {
                    use_type_invariant(&*self);
                }
                None
            },
        }
    }
}

/// A line that holds a well-formed address, with nothing but whitespace
/// around it, asks to block that address: no address is taken for a keyword.
pub proof fn lemma_address_line_asks_to_block(line: Seq<char>)
    requires
        is_mac_format(trim(line)),
    ensures
        parsed(line) == Some(RequestView::Block { address: trim(line) }),
{
    let whole = trim(line);
    let start = skip_whitespace(line, 0);
    let end = skip_back_whitespace(line, line.len() as int);
    lemma_skip_whitespace_stays_inside(line, 0);
    lemma_skip_back_whitespace_stays_inside(line, line.len() as int);
    assert(start < end);
    assert forall|i: int| start <= i < end implies !is_whitespace(#[trigger] line[i]) by {
        assert(line[i] == whole[i - start]);
    }
    if end < line.len() {
        assert(is_whitespace(line[end]));
    }
    lemma_skip_word_takes_the_run(line, start, end);
    assert(first_word(line) == whole);
    assert(is_ascii_text(whole)) by {
        assert forall|i: int| 0 <= i < whole.len() implies #[trigger] whole[i] <= '\u{7f}' by {}
    }
    assert(upper_case(whole).len() == 17);
    reveal_strlit("UNBLOCK");
    reveal_strlit("LIST");
    reveal_strlit("CHECK");
}

/// A well-formed address on a line of its own is answered with the line
/// that says it is blocked, whether it was blocked before or not, and is in
/// the registry afterwards.
pub proof fn lemma_address_line_is_answered_blocked(list: Seq<Seq<char>>, line: Seq<char>)
    requires
        is_mac_format(trim(line)),
    ensures
        parsed(line) matches Some(request) && wire_text(answer(list, request)) == "Blocked MAC: "@
            + trim(line) + "\n"@ && list_after(list, request).contains(normalized(trim(line))),
{
    lemma_address_line_asks_to_block(line);
    let address = trim(line);
    if !list.contains(normalized(address)) {
        assert(list.push(normalized(address))[list.len() as int] == normalized(address));
    }
}

/// A line that asks to block a text that is no well-formed address is
/// answered with the line that says so, and nothing changes.
pub proof fn lemma_malformed_line_changes_nothing(list: Seq<Seq<char>>, line: Seq<char>)
    requires
        parsed(line) matches Some(RequestView::Block { address }) && !is_mac_format(address),
    ensures
        parsed(line) matches Some(request) && wire_text(answer(list, request))
            == "Invalid MAC address format: "@ + trim(line) + "\n"@ && list_after(list, request)
            == list,
{
}

/// A response tells of a change exactly when the request changed the
/// registry, and exactly then a command for the packet filter follows it. So
/// the record is written again, and the filter asked, after every change and
/// after nothing else.
pub proof fn lemma_change_is_told(list: Seq<Seq<char>>, request: RequestView)
    requires
        is_blocklist(list),
    ensures
        tells_of_change(answer(list, request)) <==> list_after(list, request) != list,
        tells_of_change(answer(list, request)) <==> enforcement_text(answer(list, request))
            is Some,
{
    match request {
        RequestView::Block { address } => {
            if is_mac_format(address) && !list.contains(normalized(address)) {
                assert(list_after(list, request).len() == list.len() + 1);
            }
        },
        RequestView::Unblock { address } => {
            if is_mac_format(address) && list.contains(normalized(address)) {
                assert(list_after(list, request).len() == list.len() - 1);
            }
        },
        _ => {},
    }
}

/// A command for the packet filter names an address in stored form, and
/// nothing that a client has written as it stands: it follows a response
/// that holds a well-formed address, and names that address normalized.
pub proof fn lemma_command_names_a_stored_address(response: ResponseView)
    ensures
        match response {
            ResponseView::Blocked { address, outcome } => enforcement_text(response) is Some ==> {
                &&& is_canonical(normalized(address))
                &&& enforcement_text(response) == Some(block_command_text(normalized(address)))
            },
            ResponseView::Removed { address } => enforcement_text(response) is Some ==> {
                &&& is_canonical(normalized(address))
                &&& enforcement_text(response) == Some(unblock_command_text(normalized(address)))
            },
            _ => enforcement_text(response) is None,
        },
{
    match response {
        ResponseView::Blocked { address, outcome } => {
            if is_mac_format(address) {
                lemma_normalized_is_canonical(address);
            }
        },
        ResponseView::Removed { address } => {
            if is_mac_format(address) {
                lemma_normalized_is_canonical(address);
            }
        },
        _ => {},
    }
}

} // verus!
