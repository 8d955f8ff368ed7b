//! Delivery by mail, up to the point where it goes out.
use crate::config::{AppConfigSmtp, AppConfigSmtpEncryption};
use crate::text::texts;
use lettre::message::Mailbox;
use vstd::prelude::*;
use vstd::string::*;

verus! {

/// The mail channel of a configuration.
#[derive(Debug)]
pub struct EmailChannel {
    smtp: AppConfigSmtp,
}

impl EmailChannel {
    /// The configuration it was made from.
    pub closed spec fn smtp(&self) -> AppConfigSmtp {
        self.smtp
    }

    /// The channel of a mail server.
    pub fn new(smtp: AppConfigSmtp) -> (channel: Self)
        ensures
            channel.smtp() == smtp,
    {
        EmailChannel { smtp }
    }

    /// The most bytes of one stream that a message quotes.
    pub fn max_output_bytes(&self) -> (n: usize)
        ensures
            n == self.smtp().max_output_bytes,
    {
        self.smtp.max_output_bytes
    }

    /// How to reach the mail server.
    pub fn transport(&self) -> (plan: TransportPlan)
        ensures
            plan.host@ == self.smtp().host@,
            plan.port == self.smtp().port,
            plan.encryption == self.smtp().encryption,
            plan.credentials is Some <==> self.smtp().username@.len() > 0,
            plan.credentials matches Some((username, password)) ==> username@
                == self.smtp().username@ && password@ == self.smtp().password@,
    {
        let credentials = if self.smtp.username.as_str().is_empty() {
            None
        } else {
            Some((self.smtp.username.clone(), self.smtp.password.clone()))
        };
        TransportPlan {
            host: self.smtp.host.clone(),
            port: self.smtp.port,
            encryption: self.smtp.encryption,
            credentials,
        }
    }

    /// Who a message to some recipients is from and to, or which address is none.
    pub fn envelope(&self, recipients: &Vec<String>) -> (r: Result<Envelope, String>)
        ensures
            addressed(
                self.smtp().from@,
                parsed_mailbox(self.smtp().from@),
                texts(recipients@),
                texts(recipients@).map_values(|address: Seq<char>| parsed_mailbox(address)),
                r,
            ),
    {
        let from = parse_mailbox(self.smtp.from.as_str());
        let mut parsed: Vec<Result<MailAddress, String>> = Vec::new();
        let ghost names = texts(recipients@).map_values(
            |address: Seq<char>| parsed_mailbox(address),
        );
        let mut i: usize = 0;
        while i < recipients.len()
            invariant
                i <= recipients@.len(),
                names == texts(recipients@).map_values(
                    |address: Seq<char>| parsed_mailbox(address),
                ),
                parse_results(parsed@) == names.take(i as int),
            decreases recipients.len() - i,
        {
            let ghost before = parse_results(parsed@);
            let one = parse_mailbox(recipients[i].as_str());
            let ghost said = parse_result(one);
            parsed.push(one);
            i = i + 1;
            proof {
                assert(parse_results(parsed@) =~= before.push(said));
                assert(names[i - 1] == said);
                assert(names.take(i as int) =~= before.push(said));
            }
        }
        assert(names.take(i as int) =~= names);
        assert(parse_results(parsed@).len() == parsed@.len());
        check_addresses(self.smtp.from.as_str(), from, recipients, parsed)
    }
}

/// How to reach a mail server. A server that authenticates nobody is offered no credentials:
/// empty ones would fail the handshake.
#[derive(Debug)]
pub struct TransportPlan {
    pub host: String,
    pub port: u16,
    pub encryption: AppConfigSmtpEncryption,
    pub credentials: Option<(String, String)>,
}

/// A mail address, with the name in front of it if it has one.
#[derive(Debug)]
pub struct MailAddress {
    pub name: Option<String>,
    pub email: String,
}

/// Who a message is from and to.
#[derive(Debug)]
pub struct Envelope {
    pub from: MailAddress,
    pub to: Vec<MailAddress>,
}

/// What lettre reads a text as: a name, if it has one, and an address; or why it is none.
pub uninterp spec fn parsed_mailbox(address: Seq<char>) -> Result<
    (Option<Seq<char>>, Seq<char>),
    Seq<char>,
>;

/// Reads a mailbox with lettre's `Mailbox::from_str`, which takes an address alone or one in
/// angle brackets behind a name, and says by `AddressError` why a text is neither. What
/// counts as an address is left to its name.
#[verifier::external_body]
fn parse_mailbox(address: &str) -> (r: Result<MailAddress, String>)
    ensures
        parse_result(r) == parsed_mailbox(address@),
{
    match address.parse::<Mailbox>() {
        Ok(mailbox) => Ok(MailAddress { name: mailbox.name, email: mailbox.email.to_string() }),
        Err(e) => Err(e.to_string()),
    }
}

/// The name and the address that a mail address holds.
pub open spec fn mail_address(address: MailAddress) -> (Option<Seq<char>>, Seq<char>) {
    (
        match address.name {
            Some(name) => Some(name@),
            None => None,
        },
        address.email@,
    )
}

/// What reading a mailbox came to.
pub open spec fn parse_result(r: Result<MailAddress, String>) -> Result<
    (Option<Seq<char>>, Seq<char>),
    Seq<char>,
> {
    match r {
        Ok(address) => Ok(mail_address(address)),
        Err(e) => Err(e@),
    }
}

/// What reading several mailboxes came to.
pub open spec fn parse_results(parsed: Seq<Result<MailAddress, String>>) -> Seq<
    Result<(Option<Seq<char>>, Seq<char>), Seq<char>>,
> {
    parsed.map_values(|r: Result<MailAddress, String>| parse_result(r))
}

/// Why a sender is no address.
pub open spec fn bad_sender(from: Seq<char>, why: Seq<char>) -> Seq<char> {
    "[smtp] from '"@ + from + "' is not an address: "@ + why
}

/// Why a recipient is no address.
pub open spec fn bad_recipient(recipient: Seq<char>, why: Seq<char>) -> Seq<char> {
    "'"@ + recipient + "' is not an address: "@ + why
}

/// Whether a message is addressed as its sender and its recipients read: an envelope where
/// each of them is an address, else an error that names the first that is not, the sender
/// before any recipient.
pub open spec fn addressed(
    from: Seq<char>,
    parsed_from: Result<(Option<Seq<char>>, Seq<char>), Seq<char>>,
    recipients: Seq<Seq<char>>,
    parsed: Seq<Result<(Option<Seq<char>>, Seq<char>), Seq<char>>>,
    r: Result<Envelope, String>,
) -> bool {
    match r {
        Ok(envelope) => {
            &&& parsed_from == Ok::<(Option<Seq<char>>, Seq<char>), Seq<char>>(
                mail_address(envelope.from),
            )
            &&& envelope.to@.len() == parsed.len()
            &&& forall|i: int|
                0 <= i < parsed.len() ==> #[trigger] parsed[i] == Ok::<
                    (Option<Seq<char>>, Seq<char>),
                    Seq<char>,
                >(mail_address(envelope.to@[i]))
        },
        Err(e) => match parsed_from {
            Err(why) => e@ == bad_sender(from, why),
            Ok(_) => exists|i: int|
                {
                    &&& 0 <= i < parsed.len()
                    &&& #[trigger] parsed[i] is Err
                    &&& e@ == bad_recipient(recipients[i], parsed[i]->Err_0)
                    &&& forall|j: int| 0 <= j < i ==> #[trigger] parsed[j] is Ok
                },
        },
    }
}

/// Addresses a message to what its sender and its recipients were read as.
pub fn check_addresses(
    from: &str,
    parsed_from: Result<MailAddress, String>,
    recipients: &Vec<String>,
    parsed: Vec<Result<MailAddress, String>>,
) -> (r: Result<Envelope, String>)
    requires
        recipients@.len() == parsed@.len(),
    ensures
        addressed(
            from@,
            parse_result(parsed_from),
            texts(recipients@),
            parse_results(parsed@),
            r,
        ),
{
    let sender = match parsed_from {
        Ok(sender) => sender,
        Err(why) => {
            let mut e = "[smtp] from '".to_owned();
            e.append(from);
            e.append("' is not an address: ");
            e.append(why.as_str());
            return Err(e);
        },
    };
    let ghost all = parsed@;
    let ghost results = parse_results(all);
    let mut to: Vec<MailAddress> = Vec::new();
    let length: usize = recipients.len();
    let mut i: usize = 0;
    for one in iter: parsed
        invariant
            length == recipients@.len(),
            length == all.len(),
            all == parsed@,
            parse_result(parsed_from) is Ok,
            results == parse_results(all),
            iter.seq() == all,
            i == iter.index(),
            to@.len() == i,
            forall|j: int|
                0 <= j < i ==> #[trigger] results[j] == Ok::<
                    (Option<Seq<char>>, Seq<char>),
                    Seq<char>,
                >(mail_address(to@[j])),
    {
        match one {
            Ok(address) => {
                assert(results[i as int] == parse_result(all[i as int]));
                to.push(address);
            },
            Err(why) => {
                let mut e = "'".to_owned();
                e.append(recipients[i].as_str());
                e.append("' is not an address: ");
                e.append(why.as_str());
                proof {
                    assert(results[i as int] == parse_result(all[i as int]));
                    assert(results[i as int] is Err);
                    assert(texts(recipients@)[i as int] == recipients@[i as int]@);
                }
                return Err(e);
            },
        }
        i = i + 1;
    }
    Ok(Envelope { from: sender, to })
}

/// A message goes out exactly where its sender and every recipient is an address, and then to
/// each of them, in order; one that is not keeps it from everybody.
pub proof fn one_bad_address_stops_the_message(
    from: Seq<char>,
    parsed_from: Result<(Option<Seq<char>>, Seq<char>), Seq<char>>,
    recipients: Seq<Seq<char>>,
    parsed: Seq<Result<(Option<Seq<char>>, Seq<char>), Seq<char>>>,
    r: Result<Envelope, String>,
)
    requires
        addressed(from, parsed_from, recipients, parsed, r),
    ensures
        r is Ok <==> parsed_from is Ok && forall|i: int|
            0 <= i < parsed.len() ==> (#[trigger] parsed[i]) is Ok,
        r matches Ok(envelope) ==> {
            &&& envelope.to@.len() == parsed.len()
            &&& mail_address(envelope.from) == parsed_from->Ok_0
            &&& forall|i: int|
                0 <= i < parsed.len() ==> mail_address(envelope.to@[i]) == (#[trigger] parsed[i])->Ok_0
        },
        r is Err && parsed_from is Err ==> r->Err_0@ == "[smtp] from '"@ + from
            + "' is not an address: "@ + parsed_from->Err_0,
{
    match r {
        Ok(envelope) => {
            assert forall|i: int| 0 <= i < parsed.len() implies (#[trigger] parsed[i]) is Ok by {}
        },
        Err(_) => {},
    }
}

} // verus!
