//! DNS stamps: texts that tell clients how to reach the server.

use crate::config;
use crate::text;
use vstd::prelude::*;
use vstd::utf8::*;

verus! {

/// A line for the operator: on the standard output, or on that for errors.
#[derive(Debug)]
pub enum OutputLine {
    Out(String),
    Warning(String),
}

/// What a line says.
pub enum LineView {
    Out(Seq<char>),
    Warning(Seq<char>),
}

impl View for OutputLine {
    type V = LineView;

    open spec fn view(&self) -> LineView {
        match *self {
            OutputLine::Out(s) => LineView::Out(s@),
            OutputLine::Warning(s) => LineView::Warning(s@),
        }
    }
}

/// What lines say.
pub open spec fn line_views(lines: Seq<OutputLine>) -> Seq<LineView> {
    lines.map_values(|l: OutputLine| l@)
}

/// A stamp, or why there is none.
pub open spec fn stamp_view(r: Result<String, String>) -> Result<Seq<char>, Seq<char>> {
    match r {
        Ok(s) => Ok(s@),
        Err(e) => Err(e@),
    }
}

/// Stamps, or why there are none.
pub open spec fn stamp_views(stamps: Seq<Result<String, String>>) -> Seq<
    Result<Seq<char>, Seq<char>>,
> {
    stamps.map_values(|r: Result<String, String>| stamp_view(r))
}

/// The port as it stands in a stamp: that of HTTPS is left out.
pub open spec fn stamp_host(hostname: Seq<char>, port: Option<u16>) -> Seq<char> {
    match port {
        Some(p) if p != 443 => hostname.push(':') + text::decimal(p as nat),
        _ => hostname,
    }
}

/// The texts fit the length bytes of a stamp.
pub open spec fn stamp_fits(
    hostname: Seq<char>,
    path: Seq<char>,
    address: Option<Seq<char>>,
    port: Option<u16>,
) -> bool {
    &&& encode_utf8(stamp_host(hostname, port)).len() <= 255
    &&& encode_utf8(path).len() <= 255
    &&& address matches Some(a) ==> encode_utf8(a).len() < 128
}

/// The stamp of a server, or why there is none.
pub uninterp spec fn doh_stamp(
    hostname: Seq<char>,
    path: Seq<char>,
    address: Option<Seq<char>>,
    port: Option<u16>,
) -> Result<Seq<char>, Seq<char>>;

/// `DoHBuilder` of the `dnsstamps` crate: the stamp of a server with this name and path, with the
/// address and the port that are given. It panics on texts that do not fit their length bytes.
#[verifier::external_body]
fn build_doh_stamp(hostname: &str, path: &str, address: Option<&str>, port: Option<u16>) -> (r:
    Result<String, String>)
    requires
        stamp_fits(hostname@, path@, text::opt_str(address), port),
    ensures
        stamp_view(r) == doh_stamp(hostname@, path@, text::opt_str(address), port),
{
    let builder = dnsstamps::DoHBuilder::new(hostname.to_string(), path.to_string());
    let builder = match address {
        Some(address) => builder.with_address(address.to_string()),
        None => builder,
    };
    let builder = match port {
        Some(port) => builder.with_port(port),
        None => builder,
    };
    builder.serialize().map_err(|e| e.to_string())
}

/// The stamp of a server for oblivious queries, or why there is none.
pub uninterp spec fn odoh_stamp(hostname: Seq<char>, path: Seq<char>, port: Option<u16>) -> Result<
    Seq<char>,
    Seq<char>,
>;

/// `ODoHTargetBuilder` of the `dnsstamps` crate: the stamp of a server for oblivious queries with
/// this name and path, and the port that is given. It panics on texts that do not fit their
/// length bytes.
#[verifier::external_body]
fn build_odoh_stamp(hostname: &str, path: &str, port: Option<u16>) -> (r: Result<String, String>)
    requires
        stamp_fits(hostname@, path@, None, port),
    ensures
        stamp_view(r) == odoh_stamp(hostname@, path@, port),
{
    let builder = dnsstamps::ODoHTargetBuilder::new(hostname.to_string(), path.to_string());
    let builder = match port {
        Some(port) => builder.with_port(port),
        None => builder,
    };
    builder.serialize().map_err(|e| e.to_string())
}

/// The port that an option is, or the message about it.
pub fn parse_public_port(value: Option<&str>) -> (r: Result<Option<u16>, String>)
    ensures
        match value {
            None => r == Ok::<Option<u16>, String>(None),
            Some(v) => match config::number_message("public port"@, v@, 65535) {
                Some(m) => r matches Err(e) && e@ == m,
                None => r matches Ok(Some(port)) && text::parsed_number(v@, 65535) == Some(
                    port as nat,
                ),
            },
        },
{
    match value {
        None => Ok(None),
        Some(v) => match config::number_option("public port", v, 65535) {
            Ok(port) => Ok(Some(port as u16)),
            Err(m) => Err(m),
        },
    }
}

/// The line about a server's stamp.
pub open spec fn doh_line(
    hostname: Seq<char>,
    address: Option<Seq<char>>,
    stamp: Result<Seq<char>, Seq<char>>,
) -> LineView {
    match (stamp, address) {
        (Ok(s), None) => LineView::Out(
            "Test DNS stamp to reach ["@ + hostname + "] over DoH: ["@ + s + "]\n"@,
        ),
        (Ok(s), Some(a)) => LineView::Out(
            "Test DNS stamp to reach ["@ + hostname + "] via ["@ + a + "] over DoH: ["@ + s
                + "]"@,
        ),
        (Err(e), None) => LineView::Warning("Warning: Failed to generate DoH stamp: "@ + e),
        (Err(e), Some(a)) => LineView::Warning(
            "Warning: Failed to generate DoH stamp for "@ + a + ": "@ + e,
        ),
    }
}

/// The line about a server's stamp for oblivious queries.
pub open spec fn odoh_line(hostname: Seq<char>, stamp: Result<Seq<char>, Seq<char>>) -> LineView {
    match stamp {
        Ok(s) => LineView::Out(
            "Test DNS stamp to reach ["@ + hostname + "] over Oblivious DoH: ["@ + s + "]\n"@,
        ),
        Err(e) => LineView::Warning("Warning: Failed to generate ODoH stamp: "@ + e),
    }
}

fn line_of_doh(hostname: &str, address: Option<&str>, stamp: &Result<String, String>) -> (line:
    OutputLine)
    ensures
        line@ == doh_line(hostname@, text::opt_str(address), stamp_view(*stamp)),
{
    match (stamp, address) {
        (Ok(s), None) => {
            let mut line = text::joined("Test DNS stamp to reach [", hostname);
            line.append("] over DoH: [");
            line.append(s.as_str());
            line.append("]\n");
            OutputLine::Out(line)
        },
        (Ok(s), Some(a)) => {
            let mut line = text::joined("Test DNS stamp to reach [", hostname);
            line.append("] via [");
            line.append(a);
            line.append("] over DoH: [");
            line.append(s.as_str());
            line.append("]");
            OutputLine::Out(line)
        },
        (Err(e), None) => OutputLine::Warning(
            text::joined("Warning: Failed to generate DoH stamp: ", e.as_str()),
        ),
        (Err(e), Some(a)) => {
            let mut line = text::joined("Warning: Failed to generate DoH stamp for ", a);
            line.append(": ");
            line.append(e.as_str());
            OutputLine::Warning(line)
        },
    }
}

fn line_of_odoh(hostname: &str, stamp: &Result<String, String>) -> (line: OutputLine)
    ensures
        line@ == odoh_line(hostname@, stamp_view(*stamp)),
{
    match stamp {
        Ok(s) => {
            let mut line = text::joined("Test DNS stamp to reach [", hostname);
            line.append("] over Oblivious DoH: [");
            line.append(s.as_str());
            line.append("]\n");
            OutputLine::Out(line)
        },
        Err(e) => OutputLine::Warning(
            text::joined("Warning: Failed to generate ODoH stamp: ", e.as_str()),
        ),
    }
}

/// The lines about the stamps of a server's addresses.
pub open spec fn address_lines(
    hostname: Seq<char>,
    addresses: Seq<Seq<char>>,
    stamps: Seq<Result<Seq<char>, Seq<char>>>,
) -> Seq<LineView> {
    Seq::new(addresses.len(), |i: int| doh_line(hostname, Some(addresses[i]), stamps[i]))
}

/// What is said last.
pub open spec fn closing_line() -> LineView {
    LineView::Out(
        "Check out https://dnscrypt.info/stamps/ to compute the actual stamps.\n"@,
    )
}

/// The lines about a server's stamps: with addresses, a stamp for each and an empty line; without,
/// one stamp; and in either case one for oblivious queries.
pub open spec fn report(
    hostname: Seq<char>,
    addresses: Seq<Seq<char>>,
    stamps: Seq<Result<Seq<char>, Seq<char>>>,
    odoh: Result<Seq<char>, Seq<char>>,
) -> Seq<LineView> {
    if addresses.len() == 0 {
        seq![doh_line(hostname, None, stamps[0]), odoh_line(hostname, odoh), closing_line()]
    } else {
        address_lines(hostname, addresses, stamps) + seq![
            LineView::Out(Seq::empty()),
            odoh_line(hostname, odoh),
            closing_line(),
        ]
    }
}

/// The lines about a server's stamps; there is a stamp for each address, or one where there is no
/// address.
pub fn stamp_report(
    hostname: &str,
    addresses: &Vec<String>,
    stamps: &Vec<Result<String, String>>,
    odoh: &Result<String, String>,
) -> (lines: Vec<OutputLine>)
    requires
        stamps@.len() >= 1,
        stamps@.len() >= addresses@.len(),
    ensures
        line_views(lines@) == report(
            hostname@,
            text::texts(addresses@),
            stamp_views(stamps@),
            stamp_view(*odoh),
        ),
{
    let ghost names = text::texts(addresses@);
    let ghost views = stamp_views(stamps@);
    let mut lines: Vec<OutputLine> = Vec::new();
    if addresses.len() == 0 {
        lines.push(line_of_doh(hostname, None, &stamps[0]));
    } else {
        let mut i: usize = 0;
        while i < addresses.len()
            invariant
                i <= addresses@.len() <= stamps@.len(),
                lines@.len() == i,
                names == text::texts(addresses@),
                views == stamp_views(stamps@),
                forall|j: int|
                    0 <= j < i ==> (#[trigger] lines@[j])@ == doh_line(
                        hostname@,
                        Some(names[j]),
                        views[j],
                    ),
            decreases addresses@.len() - i,
        {
            lines.push(line_of_doh(hostname, Some(addresses[i].as_str()), &stamps[i]));
            i = i + 1;
        }
        lines.push(OutputLine::Out(String::new()));
    }
    lines.push(line_of_odoh(hostname, odoh));
    lines.push(
        OutputLine::Out(
            "Check out https://dnscrypt.info/stamps/ to compute the actual stamps.\n".to_owned(),
        ),
    );
    assert(line_views(lines@) =~= report(hostname@, names, views, stamp_view(*odoh)));
    lines
}

/// The stamps of a server's addresses, or of the server where there is none.
pub open spec fn stamps_of(
    hostname: Seq<char>,
    path: Seq<char>,
    addresses: Seq<Seq<char>>,
    port: Option<u16>,
) -> Seq<Result<Seq<char>, Seq<char>>> {
    if addresses.len() == 0 {
        seq![doh_stamp(hostname, path, None, port)]
    } else {
        Seq::new(addresses.len(), |i: int| doh_stamp(hostname, path, Some(addresses[i]), port))
    }
}

/// The lines about a server's stamps.
pub fn stamp_lines(
    hostname: &str,
    path: &str,
    addresses: &Vec<String>,
    port: Option<u16>,
) -> (lines: Vec<OutputLine>)
    requires
        stamp_fits(hostname@, path@, None, port),
        forall|i: int|
            0 <= i < addresses@.len() ==> encode_utf8((#[trigger] addresses@[i])@).len() < 128,
    ensures
        line_views(lines@) == report(
            hostname@,
            text::texts(addresses@),
            stamps_of(hostname@, path@, text::texts(addresses@), port),
            odoh_stamp(hostname@, path@, port),
        ),
{
    let ghost names = text::texts(addresses@);
    let mut stamps: Vec<Result<String, String>> = Vec::new();
    if addresses.len() == 0 {
        stamps.push(build_doh_stamp(hostname, path, None, port));
    } else {
        let mut i: usize = 0;
        while i < addresses.len()
            invariant
                i <= addresses@.len(),
                names == text::texts(addresses@),
                stamps@.len() == i,
                stamp_fits(hostname@, path@, None, port),
                forall|j: int|
                    0 <= j < addresses@.len() ==> encode_utf8((#[trigger] addresses@[j])@).len()
                        < 128,
                forall|j: int|
                    0 <= j < i ==> stamp_view(#[trigger] stamps@[j]) == doh_stamp(
                        hostname@,
                        path@,
                        Some(names[j]),
                        port,
                    ),
            decreases addresses@.len() - i,
        {
            assert(addresses@[i as int]@ == names[i as int]);
            stamps.push(build_doh_stamp(hostname, path, Some(addresses[i].as_str()), port));
            i = i + 1;
        }
    }
    let odoh = build_odoh_stamp(hostname, path, port);
    assert(stamp_views(stamps@) =~= stamps_of(hostname@, path@, names, port));
    stamp_report(hostname, addresses, &stamps, &odoh)
}

/// The line for an operator who named no host.
pub fn no_hostname_line() -> (line: OutputLine)
    ensures
        line@ == LineView::Out(
            "Please provide a fully qualified hostname (-H <hostname> command-line option) to get test DNS stamps for your server.\n"@,
        ),
{
    OutputLine::Out(
        "Please provide a fully qualified hostname (-H <hostname> command-line option) to get test DNS stamps for your server.\n".to_owned(),
    )
}

/// There is a line for each address, in their order, which tells the address and its stamp; then
/// come an empty line, the stamp for oblivious queries and the hint.
pub proof fn law_every_address_gets_a_stamp(
    hostname: Seq<char>,
    path: Seq<char>,
    addresses: Seq<Seq<char>>,
    port: Option<u16>,
    odoh: Seq<char>,
    stamp: Seq<char>,
    i: int,
)
    requires
        0 <= i < addresses.len(),
        doh_stamp(hostname, path, Some(addresses[i]), port) == Ok::<Seq<char>, Seq<char>>(stamp),
    ensures
        ({
            let lines = report(
                hostname,
                addresses,
                stamps_of(hostname, path, addresses, port),
                Ok(odoh),
            );
            let n = addresses.len() as int;
            &&& lines.len() == n + 3
            &&& lines[i] == LineView::Out(
                "Test DNS stamp to reach ["@ + hostname + "] via ["@ + addresses[i]
                    + "] over DoH: ["@ + stamp + "]"@,
            )
            &&& lines[n] == LineView::Out(Seq::empty())
            &&& lines[n + 1] == LineView::Out(
                "Test DNS stamp to reach ["@ + hostname + "] over Oblivious DoH: ["@ + odoh
                    + "]\n"@,
            )
            &&& lines[n + 2] == LineView::Out(
                "Check out https://dnscrypt.info/stamps/ to compute the actual stamps.\n"@,
            )
        }),
{
}

/// Without an address there is one stamp, for the name alone.
pub proof fn law_hosts_without_address_get_a_stamp(
    hostname: Seq<char>,
    path: Seq<char>,
    port: Option<u16>,
    odoh: Seq<char>,
    stamp: Seq<char>,
)
    requires
        doh_stamp(hostname, path, None, port) == Ok::<Seq<char>, Seq<char>>(stamp),
    ensures
        report(
            hostname,
            Seq::empty(),
            stamps_of(hostname, path, Seq::empty(), port),
            Ok(odoh),
        ) == seq![
            LineView::Out("Test DNS stamp to reach ["@ + hostname + "] over DoH: ["@ + stamp + "]\n"@),
            LineView::Out(
                "Test DNS stamp to reach ["@ + hostname + "] over Oblivious DoH: ["@ + odoh
                    + "]\n"@,
            ),
            LineView::Out(
                "Check out https://dnscrypt.info/stamps/ to compute the actual stamps.\n"@,
            ),
        ],
{
}

/// A stamp that could not be made is told of as a warning.
pub proof fn law_failed_stamps_are_warned_of(
    hostname: Seq<char>,
    address: Seq<char>,
    reason: Seq<char>,
)
    ensures
        doh_line(hostname, None, Err(reason)) == LineView::Warning(
            "Warning: Failed to generate DoH stamp: "@ + reason,
        ),
        doh_line(hostname, Some(address), Err(reason)) == LineView::Warning(
            "Warning: Failed to generate DoH stamp for "@ + address + ": "@ + reason,
        ),
        odoh_line(hostname, Err(reason)) == LineView::Warning(
            "Warning: Failed to generate ODoH stamp: "@ + reason,
        ),
{
}

} // verus!
