//! Which command a command line asks for, and the JSON envelopes that
//! wrap every answer.
use vstd::prelude::*;
use crate::cli::has_flag;
use crate::escape::{json_escape, json_escape_spec};
use crate::text::{str_eq, texts};

verus! {

/// The commands of the CLI.
pub enum Command {
    Help,
    Version,
    Doctor,
    Init,
    AuthStatus,
    AuthOpenLogin,
    AuthBrowserLogin,
    AuthImportCookies,
    AuthConfigure,
    AuthLogin,
    AuthLogout,
    FeaturesList,
    FeaturesForms,
    DomainsList,
    DomainsResolve,
    DomainsDetail,
    DnsList,
    DnsPlanAdd,
    DnsAdd,
    DnsUpdate,
    DnsDelete,
    DnsExport,
    InvoicesList,
    EndpointImportHar,
    Raw,
}

/// The subcommand word: the second argument, or `default` where there is
/// none.
pub open spec fn sub_word(args: Seq<Seq<char>>, default: Seq<char>) -> Seq<char> {
    if args.len() > 1 {
        args[1]
    } else {
        default
    }
}

/// The `auth` subcommand that `args` name.
pub open spec fn auth_spec(args: Seq<Seq<char>>) -> Result<Command, Seq<char>> {
    let sub = sub_word(args, ""@);
    if sub == "status"@ {
        Ok(Command::AuthStatus)
    } else if sub == "open-login"@ {
        Ok(Command::AuthOpenLogin)
    } else if sub == "browser-login"@ {
        Ok(Command::AuthBrowserLogin)
    } else if sub == "import-cookies"@ {
        Ok(Command::AuthImportCookies)
    } else if sub == "configure"@ {
        Ok(Command::AuthConfigure)
    } else if sub == "login"@ {
        Ok(Command::AuthLogin)
    } else if sub == "logout"@ {
        Ok(Command::AuthLogout)
    } else {
        Err("usage: domainesia auth <status|open-login|import-cookies|configure|login> ..."@)
    }
}

/// The `features` subcommand that `args` name (`list` where none is).
pub open spec fn features_spec(args: Seq<Seq<char>>) -> Result<Command, Seq<char>> {
    let sub = sub_word(args, "list"@);
    if sub == "list"@ {
        Ok(Command::FeaturesList)
    } else if sub == "forms"@ {
        Ok(Command::FeaturesForms)
    } else {
        Err("usage: domainesia features <list|forms> [--path <path>]"@)
    }
}

/// The `domains` subcommand that `args` name.
pub open spec fn domains_spec(args: Seq<Seq<char>>) -> Result<Command, Seq<char>> {
    let sub = sub_word(args, ""@);
    if sub == "list"@ {
        Ok(Command::DomainsList)
    } else if sub == "resolve"@ {
        Ok(Command::DomainsResolve)
    } else if sub == "detail"@ {
        Ok(Command::DomainsDetail)
    } else {
        Err("usage: domainesia domains <list|resolve|detail> [--domain <domain>]"@)
    }
}

/// The `dns` subcommand that `args` name.
pub open spec fn dns_spec(args: Seq<Seq<char>>) -> Result<Command, Seq<char>> {
    let sub = sub_word(args, ""@);
    if sub == "list"@ {
        Ok(Command::DnsList)
    } else if sub == "plan-add"@ {
        Ok(Command::DnsPlanAdd)
    } else if sub == "add"@ {
        Ok(Command::DnsAdd)
    } else if sub == "update"@ {
        Ok(Command::DnsUpdate)
    } else if sub == "delete"@ {
        Ok(Command::DnsDelete)
    } else if sub == "export"@ {
        Ok(Command::DnsExport)
    } else {
        Err("usage: domainesia dns <list|plan-add|add|update|delete> ..."@)
    }
}

/// The `invoices` subcommand that `args` name.
pub open spec fn invoices_spec(args: Seq<Seq<char>>) -> Result<Command, Seq<char>> {
    if sub_word(args, ""@) == "list"@ {
        Ok(Command::InvoicesList)
    } else {
        Err("usage: domainesia invoices list"@)
    }
}

/// The `endpoint` subcommand that `args` name.
pub open spec fn endpoint_spec(args: Seq<Seq<char>>) -> Result<Command, Seq<char>> {
    if sub_word(args, ""@) == "import-har"@ {
        Ok(Command::EndpointImportHar)
    } else {
        Err("usage: domainesia endpoint import-har <path.har>"@)
    }
}

/// The command that `args` ask for: help where there are no arguments or
/// `--help` or `-h` is among them; else the command that the first
/// argument names.
pub open spec fn run_spec(args: Seq<Seq<char>>) -> Result<Command, Seq<char>> {
    if args.len() == 0 || args.contains("--help"@) || args.contains("-h"@) {
        Ok(Command::Help)
    } else {
        let c = args[0];
        if c == "doctor"@ {
            Ok(Command::Doctor)
        } else if c == "init"@ {
            Ok(Command::Init)
        } else if c == "auth"@ {
            auth_spec(args)
        } else if c == "features"@ {
            features_spec(args)
        } else if c == "domains"@ {
            domains_spec(args)
        } else if c == "dns"@ {
            dns_spec(args)
        } else if c == "invoices"@ {
            invoices_spec(args)
        } else if c == "endpoint"@ {
            endpoint_spec(args)
        } else if c == "raw"@ {
            Ok(Command::Raw)
        } else if c == "version"@ {
            Ok(Command::Version)
        } else {
            Err("unknown command: "@ + c)
        }
    }
}

/// The result of routing, with the error message as text.
pub open spec fn routed(r: Result<Command, String>) -> Result<Command, Seq<char>> {
    match r {
        Ok(c) => Ok(c),
        Err(e) => Err(e@),
    }
}

fn sub_is(args: &[String], default: &str, word: &str) -> (r: bool)
    ensures
        r == (sub_word(texts(args@), default@) == word@),
{
    if args.len() > 1 {
        str_eq(args[1].as_str(), word)
    } else {
        str_eq(default, word)
    }
}

/// The `auth` subcommand that `args` name (see `auth_spec`).
pub fn cmd_auth(args: &[String]) -> (r: Result<Command, String>)
    ensures
        routed(r) == auth_spec(texts(args@)),
{
    if sub_is(args, "", "status") {
        Ok(Command::AuthStatus)
    } else if sub_is(args, "", "open-login") {
        Ok(Command::AuthOpenLogin)
    } else if sub_is(args, "", "browser-login") {
        Ok(Command::AuthBrowserLogin)
    } else if sub_is(args, "", "import-cookies") {
        Ok(Command::AuthImportCookies)
    } else if sub_is(args, "", "configure") {
        Ok(Command::AuthConfigure)
    } else if sub_is(args, "", "login") {
        Ok(Command::AuthLogin)
    } else if sub_is(args, "", "logout") {
        Ok(Command::AuthLogout)
    } else {
        Err(String::from_str("usage: domainesia auth <status|open-login|import-cookies|configure|login> ..."))
    }
}

/// The `features` subcommand that `args` name (see `features_spec`).
pub fn cmd_features(args: &[String]) -> (r: Result<Command, String>)
    ensures
        routed(r) == features_spec(texts(args@)),
{
    if sub_is(args, "list", "list") {
        Ok(Command::FeaturesList)
    } else if sub_is(args, "list", "forms") {
        Ok(Command::FeaturesForms)
    } else {
        Err(String::from_str("usage: domainesia features <list|forms> [--path <path>]"))
    }
}

/// The `domains` subcommand that `args` name (see `domains_spec`).
pub fn cmd_domains(args: &[String]) -> (r: Result<Command, String>)
    ensures
        routed(r) == domains_spec(texts(args@)),
{
    if sub_is(args, "", "list") {
        Ok(Command::DomainsList)
    } else if sub_is(args, "", "resolve") {
        Ok(Command::DomainsResolve)
    } else if sub_is(args, "", "detail") {
        Ok(Command::DomainsDetail)
    } else {
        Err(String::from_str("usage: domainesia domains <list|resolve|detail> [--domain <domain>]"))
    }
}

/// The `dns` subcommand that `args` name (see `dns_spec`).
pub fn cmd_dns(args: &[String]) -> (r: Result<Command, String>)
    ensures
        routed(r) == dns_spec(texts(args@)),
{
    if sub_is(args, "", "list") {
        Ok(Command::DnsList)
    } else if sub_is(args, "", "plan-add") {
        Ok(Command::DnsPlanAdd)
    } else if sub_is(args, "", "add") {
        Ok(Command::DnsAdd)
    } else if sub_is(args, "", "update") {
        Ok(Command::DnsUpdate)
    } else if sub_is(args, "", "delete") {
        Ok(Command::DnsDelete)
    } else if sub_is(args, "", "export") {
        Ok(Command::DnsExport)
    } else {
        Err(String::from_str("usage: domainesia dns <list|plan-add|add|update|delete> ..."))
    }
}

/// The `invoices` subcommand that `args` name (see `invoices_spec`).
pub fn cmd_invoices(args: &[String]) -> (r: Result<Command, String>)
    ensures
        routed(r) == invoices_spec(texts(args@)),
{
    if sub_is(args, "", "list") {
        Ok(Command::InvoicesList)
    } else {
        Err(String::from_str("usage: domainesia invoices list"))
    }
}

/// The `endpoint` subcommand that `args` name (see `endpoint_spec`).
pub fn cmd_endpoint(args: &[String]) -> (r: Result<Command, String>)
    ensures
        routed(r) == endpoint_spec(texts(args@)),
{
    if sub_is(args, "", "import-har") {
        Ok(Command::EndpointImportHar)
    } else {
        Err(String::from_str("usage: domainesia endpoint import-har <path.har>"))
    }
}

/// The command that `args` ask for (see `run_spec`).
pub fn run(args: &[String]) -> (r: Result<Command, String>)
    ensures
        routed(r) == run_spec(texts(args@)),
{
    if args.len() == 0 || has_flag(args, "--help") || has_flag(args, "-h") {
        return Ok(Command::Help);
    }
    let c = args[0].as_str();
    if str_eq(c, "doctor") {
        Ok(Command::Doctor)
    } else if str_eq(c, "init") {
        Ok(Command::Init)
    } else if str_eq(c, "auth") {
        cmd_auth(args)
    } else if str_eq(c, "features") {
        cmd_features(args)
    } else if str_eq(c, "domains") {
        cmd_domains(args)
    } else if str_eq(c, "dns") {
        cmd_dns(args)
    } else if str_eq(c, "invoices") {
        cmd_invoices(args)
    } else if str_eq(c, "endpoint") {
        cmd_endpoint(args)
    } else if str_eq(c, "raw") {
        Ok(Command::Raw)
    } else if str_eq(c, "version") {
        Ok(Command::Version)
    } else {
        let mut m = String::from_str("unknown command: ");
        m.append(c);
        Err(m)
    }
}

/// The answer of a command that succeeded: under `--json` the envelope
/// `{"ok":true,"command":...,"data":...}`, else the data alone.
pub open spec fn ok_output_spec(json: bool, command: Seq<char>, data: Seq<char>) -> Seq<char> {
    if json {
        "{\"ok\":true,\"command\":\""@ + json_escape_spec(command) + "\",\"data\":"@ + data + "}"@
    } else {
        data
    }
}

/// The answer of a command that failed: under `--json` the envelope
/// `{"ok":false,"command":...,"error":{"message":...}}`, else `error: `
/// and the message.
pub open spec fn error_output_spec(json: bool, command: Seq<char>, message: Seq<char>) -> Seq<char> {
    if json {
        "{\"ok\":false,\"command\":\""@ + json_escape_spec(command) + "\",\"error\":{\"message\":\""@
            + json_escape_spec(message) + "\"}}"@
    } else {
        "error: "@ + message
    }
}

/// The line printed for a command that succeeded (see `ok_output_spec`).
pub fn ok_output(json: bool, command: &str, data: &str) -> (res: String)
    ensures
        res@ == ok_output_spec(json, command@, data@),
{
    if json {
        let mut out = String::from_str("{\"ok\":true,\"command\":\"");
        out.append(json_escape(command).as_str());
        out.append("\",\"data\":");
        out.append(data);
        out.append("}");
        out
    } else {
        String::from_str(data)
    }
}

/// The line printed for a command that failed (see `error_output_spec`).
pub fn error_output(json: bool, command: &str, message: &str) -> (res: String)
    ensures
        res@ == error_output_spec(json, command@, message@),
{
    if json {
        let mut out = String::from_str("{\"ok\":false,\"command\":\"");
        out.append(json_escape(command).as_str());
        out.append("\",\"error\":{\"message\":\"");
        out.append(json_escape(message).as_str());
        out.append("\"}}");
        out
    } else {
        let mut out = String::from_str("error: ");
        out.append(message);
        out
    }
}

} // verus!
