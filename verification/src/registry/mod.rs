//! The package registries: which calls of a package manager go through the
//! proxy, and what becomes of the answers of a registry.

use vstd::prelude::*;

pub mod npm;
pub mod pypi;

use crate::headers;
use crate::instant;
use crate::json;
use crate::rule::Rules;
use crate::target;
use crate::target::Url;
use crate::text;
use crate::text::{same, same_ignoring_case};

verus! {

/// The families of package managers.
#[derive(Debug, Clone, Copy, PartialEq, Eq, Structural)]
pub enum Ecosystem {
    Javascript,
    Python,
}

/// The package managers that get a shim.
#[derive(Debug, Clone, Copy, PartialEq, Eq, Structural)]
pub enum ToolName {
    Bun,
    Bunx,
    Npm,
    Npx,
    Pnpm,
    Yarn,
    Pip,
    Pip3,
    Uv,
    Uvx,
    Pipx,
    Poetry,
}

/// The family of a tool.
pub open spec fn family(tool: ToolName) -> Ecosystem {
    match tool {
        ToolName::Bun
        | ToolName::Bunx
        | ToolName::Npm
        | ToolName::Npx
        | ToolName::Pnpm
        | ToolName::Yarn => Ecosystem::Javascript,
        _ => Ecosystem::Python,
    }
}

/// The name of the command that starts a tool.
pub open spec fn command_of(tool: ToolName) -> Seq<char> {
    match tool {
        ToolName::Bun => "bun"@,
        ToolName::Bunx => "bunx"@,
        ToolName::Npm => "npm"@,
        ToolName::Npx => "npx"@,
        ToolName::Pnpm => "pnpm"@,
        ToolName::Yarn => "yarn"@,
        ToolName::Pip => "pip"@,
        ToolName::Pip3 => "pip3"@,
        ToolName::Uv => "uv"@,
        ToolName::Uvx => "uvx"@,
        ToolName::Pipx => "pipx"@,
        ToolName::Poetry => "poetry"@,
    }
}

/// All tools, in the order in which they are named.
pub open spec fn all_tools() -> Seq<ToolName> {
    seq![
        ToolName::Bun,
        ToolName::Bunx,
        ToolName::Npm,
        ToolName::Npx,
        ToolName::Pnpm,
        ToolName::Yarn,
        ToolName::Pip,
        ToolName::Pip3,
        ToolName::Uv,
        ToolName::Uvx,
        ToolName::Pipx,
        ToolName::Poetry,
    ]
}

/// No two tools go by the same command, whatever the case of its letters.
pub proof fn lemma_commands_differ(a: ToolName, b: ToolName)
    requires
        text::ascii_lower(command_of(a)) == text::ascii_lower(command_of(b)),
    ensures
        a == b,
{
    reveal_strlit("bun");
    reveal_strlit("bunx");
    reveal_strlit("npm");
    reveal_strlit("npx");
    reveal_strlit("pnpm");
    reveal_strlit("yarn");
    reveal_strlit("pip");
    reveal_strlit("pip3");
    reveal_strlit("uv");
    reveal_strlit("uvx");
    reveal_strlit("pipx");
    reveal_strlit("poetry");
    let x = command_of(a);
    let y = command_of(b);
    assert(text::ascii_lower(x).len() == x.len());
    assert(text::ascii_lower(y).len() == y.len());
    assert forall|i: int| 0 <= i < x.len() implies text::ascii_small(#[trigger] x[i])
        == text::ascii_small(y[i]) by {
        assert(text::ascii_lower(x)[i] == text::ascii_small(x[i]));
        assert(text::ascii_lower(y)[i] == text::ascii_small(y[i]));
    }
    assert(x[0] == y[0] && x[1] == y[1]);
    assert(x.len() > 2 ==> x[2] == y[2]);
    assert(x.len() > 3 ==> x[3] == y[3]);
}

/// The list of tools names each of them once.
pub proof fn lemma_all_tools(tool: ToolName)
    ensures
        all_tools().contains(tool),
        all_tools().no_duplicates(),
{
    let all = all_tools();
    let i: int = match tool {
        ToolName::Bun => 0,
        ToolName::Bunx => 1,
        ToolName::Npm => 2,
        ToolName::Npx => 3,
        ToolName::Pnpm => 4,
        ToolName::Yarn => 5,
        ToolName::Pip => 6,
        ToolName::Pip3 => 7,
        ToolName::Uv => 8,
        ToolName::Uvx => 9,
        ToolName::Pipx => 10,
        ToolName::Poetry => 11,
    };
    assert(all[i] == tool);
}

impl ToolName {
    /// The family of the tool. Every tool has one.
    pub fn ecosystem(&self) -> (r: Option<Ecosystem>)
        ensures
            r == Some(family(*self)),
    {
        match self {
            ToolName::Bun
            | ToolName::Bunx
            | ToolName::Npm
            | ToolName::Npx
            | ToolName::Pnpm
            | ToolName::Yarn => Some(Ecosystem::Javascript),
            ToolName::Pip
            | ToolName::Pip3
            | ToolName::Uv
            | ToolName::Uvx
            | ToolName::Pipx
            | ToolName::Poetry => Some(Ecosystem::Python),
        }
    }

    /// The name of the command that starts the tool.
    pub fn command(&self) -> (r: &'static str)
        ensures
            r@ == command_of(*self),
    {
        match self {
            ToolName::Bun => "bun",
            ToolName::Bunx => "bunx",
            ToolName::Npm => "npm",
            ToolName::Npx => "npx",
            ToolName::Pnpm => "pnpm",
            ToolName::Yarn => "yarn",
            ToolName::Pip => "pip",
            ToolName::Pip3 => "pip3",
            ToolName::Uv => "uv",
            ToolName::Uvx => "uvx",
            ToolName::Pipx => "pipx",
            ToolName::Poetry => "poetry",
        }
    }

    /// All tools.
    pub fn all() -> (r: Vec<ToolName>)
        ensures
            r@ == all_tools(),
    {
        vec![
            ToolName::Bun,
            ToolName::Bunx,
            ToolName::Npm,
            ToolName::Npx,
            ToolName::Pnpm,
            ToolName::Yarn,
            ToolName::Pip,
            ToolName::Pip3,
            ToolName::Uv,
            ToolName::Uvx,
            ToolName::Pipx,
            ToolName::Poetry,
        ]
    }

    /// The tool that a command starts, in whatever case its letters are written.
    pub fn from_command(command: &str) -> (r: Option<ToolName>)
        ensures
            match r {
                Some(t) => text::ascii_lower(command_of(t)) == text::ascii_lower(command@),
                None => forall|t: ToolName|
                    text::ascii_lower(#[trigger] command_of(t)) != text::ascii_lower(command@),
            },
            forall|t: ToolName|
                text::ascii_lower(#[trigger] command_of(t)) == text::ascii_lower(command@) ==> r
                    == Some(t),
    {
        let all = ToolName::all();
        let mut i: usize = 0;
        while i < all.len()
            invariant
                i <= all@.len(),
                all@ == all_tools(),
                forall|j: int|
                    0 <= j < i ==> text::ascii_lower(command_of(#[trigger] all@[j]))
                        != text::ascii_lower(command@),
            decreases all.len() - i,
        {
            let tool = all[i];
            if same_ignoring_case(tool.command(), command) {
                proof {
                    assert forall|t: ToolName|
                        text::ascii_lower(#[trigger] command_of(t)) == text::ascii_lower(
                            command@,
                        ) implies Some(tool) == Some(t) by {
                        lemma_commands_differ(tool, t);
                    }
                }
                return Some(tool);
            }
            i += 1;
        }
        proof {
            assert forall|t: ToolName|
                text::ascii_lower(#[trigger] command_of(t)) != text::ascii_lower(command@) by {
                lemma_all_tools(t);
                let j = choose|j: int| 0 <= j < all_tools().len() && all_tools()[j] == t;
                assert(all@[j] == t);
            }
        }
        None
    }
}

/// What becomes of the answer of a registry.
#[derive(Debug, Clone)]
pub enum ResponseAction {
    /// It is handed on as it is.
    Passthrough,
    /// It is handed on with another body.
    Rewrite { body: Vec<u8> },
    /// It is withheld.
    Block,
}

/// What becomes of the answer of a registry.
pub enum Action {
    Passthrough,
    Rewrite(Seq<u8>),
    Block,
}

impl View for ResponseAction {
    type V = Action;

    open spec fn view(&self) -> Action {
        match self {
            ResponseAction::Passthrough => Action::Passthrough,
            ResponseAction::Rewrite { body } => Action::Rewrite(body@),
            ResponseAction::Block => Action::Block,
        }
    }
}

/// A package some of whose versions were withheld.
#[derive(Debug, Clone)]
pub struct QuarantinedPackage {
    pub name: String,
    pub quarantined_versions: Vec<String>,
}

/// A package some of whose versions were withheld.
pub struct Quarantined {
    pub name: Seq<char>,
    pub versions: Seq<Seq<char>>,
}

impl View for QuarantinedPackage {
    type V = Quarantined;

    open spec fn view(&self) -> Quarantined {
        Quarantined { name: self.name@, versions: text::texts(self.quarantined_versions@) }
    }
}

/// The packages that the records stand for.
pub open spec fn quarantined_views(v: Seq<QuarantinedPackage>) -> Seq<Quarantined> {
    v.map_values(|p: QuarantinedPackage| p@)
}

/// A download that was withheld.
#[derive(Debug, Clone)]
pub struct BlockedItem {
    pub package: String,
    pub version: String,
}

/// What a run has done.
#[derive(Debug, Clone, Default)]
pub struct RegistryStats {
    pub connections_tunneled: usize,
    pub packages_checked: usize,
    pub packages_quarantined: Vec<QuarantinedPackage>,
    pub downloads_blocked: Vec<BlockedItem>,
}

impl RegistryStats {
    /// Whether there is anything to tell of the run.
    pub fn active(&self) -> (r: bool)
        ensures
            r == (self.packages_checked > 0 || self.connections_tunneled > 0),
    {
        self.packages_checked > 0 || self.connections_tunneled > 0
    }
}

/// What to do with a call of a package manager, and the arguments to do it with.
#[derive(Debug, Clone)]
pub enum InterceptDecision {
    /// Start the tool directly.
    Passthrough(Vec<String>),
    /// Start the tool behind the proxy.
    Intercept(Vec<String>),
}

/// What to do with a call of a package manager, and the arguments to do it with.
pub enum Decision {
    Passthrough(Seq<Seq<char>>),
    Intercept(Seq<Seq<char>>),
}

impl View for InterceptDecision {
    type V = Decision;

    open spec fn view(&self) -> Decision {
        match self {
            InterceptDecision::Passthrough(args) => Decision::Passthrough(text::texts(args@)),
            InterceptDecision::Intercept(args) => Decision::Intercept(text::texts(args@)),
        }
    }
}

/// The argument at position `i`, or the empty text where there are fewer.
pub open spec fn arg_at(args: Seq<Seq<char>>, i: int) -> Seq<char> {
    if i < args.len() {
        args[i]
    } else {
        seq![]
    }
}

/// The argument at position `i`, or the empty text where there are fewer.
pub(crate) fn arg<'a>(args: &'a Vec<String>, i: usize) -> (r: &'a str)
    ensures
        r@ == arg_at(text::texts(args@), i as int),
{
    if i < args.len() {
        args[i].as_str()
    } else {
        proof {
            reveal_strlit("");
            assert(""@ =~= seq![]);
        }
        ""
    }
}

/// The arguments to start the tool with.
pub open spec fn args_of(d: Decision) -> Seq<Seq<char>> {
    match d {
        Decision::Passthrough(args) => args,
        Decision::Intercept(args) => args,
    }
}

/// What to do with a call of a tool, as its family decides it.
pub open spec fn decision_of(family: Ecosystem, tool: ToolName, args: Seq<Seq<char>>) -> Decision {
    match family {
        Ecosystem::Javascript => npm::decision(tool, args),
        Ecosystem::Python => pypi::decision(tool, args),
    }
}

impl Ecosystem {
    /// What to do with a call of a tool.
    pub fn decide(&self, tool: ToolName, args: Vec<String>) -> (r: InterceptDecision)
        ensures
            r@ == decision_of(*self, tool, text::texts(args@)),
    {
        match self {
            Ecosystem::Javascript => npm::decide(tool, args),
            Ecosystem::Python => pypi::decide(tool, args),
        }
    }

    /// The registry of the family, withholding what is younger than the rules
    /// allow by the clock of the machine. There is none if the rules reach back
    /// too far.
    pub fn registry(&self, rules: Rules) -> (r: Option<Registry>)
        ensures
            exists|now: int|
                {
                    &&& instant::FIRST_INSTANT <= now <= instant::LAST_INSTANT
                    &&& match #[trigger] instant::hours_before(now, rules.age() as int) {
                        Some(t) => r is Some && r->Some_0@ == fresh(t) && r->Some_0.family()
                            == *self,
                        None => r is None,
                    }
                },
    {
        match self {
            Ecosystem::Javascript => match npm::NpmRegistry::new(rules) {
                Some(registry) => Some(Registry::Npm(registry)),
                None => None,
            },
            Ecosystem::Python => match pypi::PyPIRegistry::new(rules) {
                Some(registry) => Some(Registry::PyPI(registry)),
                None => None,
            },
        }
    }
}

/// The arguments of a call are handed on as they are, but for `uv run`, which is
/// told to leave its lock file alone.
pub proof fn lemma_arguments_kept(eco: Ecosystem, tool: ToolName, args: Seq<Seq<char>>)
    ensures
        args_of(decision_of(eco, tool, args)) == if eco == Ecosystem::Python && tool == ToolName::Uv
            && arg_at(args, 0) == "run"@ {
            seq!["--frozen"@] + args
        } else {
            args
        },
{
    pypi::lemma_uv_words_differ();
}

/// A family never intercepts the tools of the other.
pub proof fn lemma_foreign_tools_pass(eco: Ecosystem, tool: ToolName, args: Seq<Seq<char>>)
    requires
        family(tool) != eco,
    ensures
        decision_of(eco, tool, args) == Decision::Passthrough(args),
{
}

/// What a registry remembers.
#[derive(Debug)]
pub(crate) struct RegistryState {
    pub packages_checked: usize,
    pub quarantined: Vec<QuarantinedPackage>,
}

impl RegistryState {
    /// Nothing checked, nothing withheld.
    pub(crate) fn new() -> (r: RegistryState)
        ensures
            r.packages_checked == 0,
            r.quarantined@.len() == 0,
    {
        RegistryState { packages_checked: 0, quarantined: Vec::new() }
    }

    /// What the run has done so far.
    pub(crate) fn stats(&self) -> (r: RegistryStats)
        ensures
            r.connections_tunneled == 0,
            r.packages_checked == self.packages_checked,
            quarantined_views(r.packages_quarantined@) == quarantined_views(self.quarantined@),
            r.downloads_blocked@.len() == 0,
    {
        let mut packages: Vec<QuarantinedPackage> = Vec::new();
        let mut i: usize = 0;
        while i < self.quarantined.len()
            invariant
                i <= self.quarantined@.len(),
                quarantined_views(packages@) == quarantined_views(self.quarantined@).take(i as int),
            decreases self.quarantined.len() - i,
        {
            let p = &self.quarantined[i];
            let copy = QuarantinedPackage {
                name: p.name.clone(),
                quarantined_versions: text::copy_list(&p.quarantined_versions),
            };
            let ghost before = quarantined_views(packages@);
            packages.push(copy);
            assert(quarantined_views(packages@) =~= before.push(p@));
            assert(quarantined_views(self.quarantined@).take(i + 1) =~= before.push(p@));
            i += 1;
        }
        assert(quarantined_views(self.quarantined@).take(self.quarantined@.len() as int)
            =~= quarantined_views(self.quarantined@));
        RegistryStats {
            connections_tunneled: 0,
            packages_checked: self.packages_checked,
            packages_quarantined: packages,
            downloads_blocked: Vec::new(),
        }
    }
}

/// A registry: the instant up to which releases are old enough, the number of
/// packages it has checked, and those of which it withheld versions.
pub struct RegistryView {
    pub cutoff: int,
    pub checked: int,
    pub quarantined: Seq<Quarantined>,
}

/// A registry that has seen nothing yet.
pub open spec fn fresh(cutoff: int) -> RegistryView {
    RegistryView { cutoff, checked: 0, quarantined: seq![] }
}

/// Whether an answer is marked as compressed.
pub open spec fn is_compressed(fields: Map<Seq<char>, Seq<Seq<u8>>>) -> bool {
    match headers::field_text(fields, "content-encoding"@) {
        Some(encoding) => encoding != "none"@ && encoding != "identity"@,
        None => false,
    }
}

/// Withholds an answer that is marked as compressed: its body cannot be read.
pub fn reject_compressed(response_headers: &http::HeaderMap<http::HeaderValue>) -> (r: Option<
    ResponseAction,
>)
    ensures
        r == if is_compressed(headers::fields_of(*response_headers)) {
            Some(ResponseAction::Block)
        } else {
            None
        },
{
    proof {
        reveal_strlit("content-encoding");
    }
    match headers::field(response_headers, "content-encoding") {
        Some(encoding) => if same(encoding, "none") || same(encoding, "identity") {
            None
        } else {
            Some(ResponseAction::Block)
        },
        None => None,
    }
}

/// Whether a URL asks the registry of a family for what it says of a package.
pub open spec fn asks_for_metadata(family: Ecosystem, url: target::UrlView) -> bool {
    match family {
        Ecosystem::Javascript => npm::asks_for_metadata(url),
        Ecosystem::Python => pypi::asks_for_metadata(url),
    }
}

/// The hosts of the registry of a family.
pub open spec fn hosts(family: Ecosystem) -> Seq<Seq<char>> {
    match family {
        Ecosystem::Javascript => npm::hosts(),
        Ecosystem::Python => pypi::hosts(),
    }
}

/// The header fields that a request for metadata is sent with.
pub open spec fn prepared(family: Ecosystem, fields: Map<Seq<char>, Seq<Seq<u8>>>) -> Map<
    Seq<char>,
    Seq<Seq<u8>>,
> {
    match family {
        Ecosystem::Javascript => npm::prepared(fields),
        Ecosystem::Python => pypi::prepared(fields),
    }
}

/// Whether the registry of a family reads what an answer to a request for this
/// URL holds: it is metadata, and its header fields say that it can be read.
pub open spec fn reads_body(
    family: Ecosystem,
    url: target::UrlView,
    fields: Map<Seq<char>, Seq<Seq<u8>>>,
) -> bool {
    match family {
        Ecosystem::Javascript => npm::reads_body(url, fields),
        Ecosystem::Python => pypi::reads_body(url, fields),
    }
}

/// What the registry of a family remembers of an answer, and what becomes of the answer.
pub open spec fn answered(
    family: Ecosystem,
    registry: RegistryView,
    url: target::UrlView,
    fields: Map<Seq<char>, Seq<Seq<u8>>>,
    body: Seq<u8>,
) -> (RegistryView, Action) {
    match family {
        Ecosystem::Javascript => npm::answered(registry, url, fields, npm::metadata_in(body)),
        Ecosystem::Python => pypi::answered(registry, url, fields, json::parsed_json(body)),
    }
}

/// Whether a registry lets an answer pass, and withholds nothing for it.
pub open spec fn passed_again(
    family: Ecosystem,
    registry: RegistryView,
    url: target::UrlView,
    fields: Map<Seq<char>, Seq<Seq<u8>>>,
    body: Seq<u8>,
) -> bool {
    let (after, action) = answered(family, registry, url, fields, body);
    action == Action::Passthrough && after.quarantined == registry.quarantined
}

/// Whether every registry of a family with this cutoff lets an answer pass,
/// whatever it has seen, and withholds nothing for it.
pub open spec fn passes_again(
    family: Ecosystem,
    cutoff: int,
    url: target::UrlView,
    fields: Map<Seq<char>, Seq<Seq<u8>>>,
    body: Seq<u8>,
) -> bool {
    forall|later: RegistryView|
        later.cutoff == cutoff ==> #[trigger] passed_again(family, later, url, fields, body)
}

/// The variables that send the tools of a family through the proxy.
pub open spec fn proxy_variables(
    family: Ecosystem,
    proxy_url: Seq<char>,
    ca_cert_path: Seq<char>,
) -> Seq<(Seq<char>, Seq<char>)> {
    match family {
        Ecosystem::Javascript => npm::proxy_variables(proxy_url, ca_cert_path),
        Ecosystem::Python => pypi::proxy_variables(proxy_url, ca_cert_path),
    }
}

/// The document that an answer to the registry of a family holds, without what
/// is too new.
pub open spec fn handed_on(family: Ecosystem, cutoff: int, body: Seq<u8>) -> json::Json {
    match family {
        Ecosystem::Javascript => npm::document_of(
            npm::quarantined(cutoff, npm::metadata_in(body)->Some_0),
        ),
        Ecosystem::Python => pypi::quarantined(cutoff, json::parsed_json(body)->Some_0),
    }
}

/// Whether the releases that an answer speaks of are finite in number, as they
/// are in every answer that is read.
pub open spec fn finite_releases(family: Ecosystem, body: Seq<u8>) -> bool {
    match family {
        Ecosystem::Javascript => match npm::metadata_in(body) {
            Some(meta) => meta.wf() && meta.time.dom().finite(),
            None => true,
        },
        Ecosystem::Python => match json::parsed_json(body) {
            Some(doc) => pypi::document_releases(doc) is Some ==> pypi::describes_releases(doc),
            None => true,
        },
    }
}

/// The registry of one of the families.
#[derive(Debug)]
pub enum Registry {
    Npm(npm::NpmRegistry),
    PyPI(pypi::PyPIRegistry),
}

impl View for Registry {
    type V = RegistryView;

    open spec fn view(&self) -> RegistryView {
        match self {
            Registry::Npm(r) => r@,
            Registry::PyPI(r) => r@,
        }
    }
}

impl Registry {
    /// The family whose registry this is.
    pub open spec fn family(&self) -> Ecosystem {
        match self {
            Registry::Npm(_) => Ecosystem::Javascript,
            Registry::PyPI(_) => Ecosystem::Python,
        }
    }

    /// The hosts of the registry.
    pub fn known_hosts(&self) -> (r: Vec<&'static str>)
        ensures
            r@.map_values(|s: &'static str| s@) == hosts(self.family()),
    {
        match self {
            Registry::Npm(r) => r.known_hosts(),
            Registry::PyPI(r) => r.known_hosts(),
        }
    }

    /// Makes a request for metadata ask for a form that can be read.
    pub fn prepare_request(&self, url: &Url, headers: &mut http::HeaderMap<http::HeaderValue>)
        requires
            self.family() == Ecosystem::Javascript && asks_for_metadata(self.family(), url@)
                ==> headers::fields_of(*old(headers)).len() < headers::MAX_NAMES,
        ensures
            headers::fields_of(*final(headers)) == if asks_for_metadata(self.family(), url@) {
                prepared(self.family(), headers::fields_of(*old(headers)))
            } else {
                headers::fields_of(*old(headers))
            },
    {
        match self {
            Registry::Npm(r) => r.prepare_request(url, headers),
            Registry::PyPI(r) => r.prepare_request(url, headers),
        }
    }

    /// Decides what becomes of an answer.
    pub fn handle_response(
        &mut self,
        url: &Url,
        status: u16,
        response_headers: &http::HeaderMap<http::HeaderValue>,
        body: &[u8],
    ) -> (r: ResponseAction)
        requires
            reads_body(old(self).family(), url@, headers::fields_of(*response_headers)) ==> old(
                self,
            )@.checked < usize::MAX,
        ensures
            final(self).family() == old(self).family(),
            (final(self)@, r@) == answered(
                old(self).family(),
                old(self)@,
                url@,
                headers::fields_of(*response_headers),
                body@,
            ),
            reads_body(old(self).family(), url@, headers::fields_of(*response_headers))
                ==> finite_releases(old(self).family(), body@),
            r is Rewrite ==> json::reads_as(
                r->body@,
                handed_on(old(self).family(), old(self)@.cutoff, body@),
            ),
            r is Rewrite ==> passes_again(
                old(self).family(),
                old(self)@.cutoff,
                url@,
                headers::fields_of(*response_headers),
                r->body@,
            ),
    {
        match self {
            Registry::Npm(r) => r.handle_response(url, status, response_headers, body),
            Registry::PyPI(r) => r.handle_response(url, status, response_headers, body),
        }
    }

    /// What the registry has done so far.
    pub fn stats(&self) -> (r: RegistryStats)
        ensures
            r.connections_tunneled == 0,
            r.packages_checked == self@.checked,
            quarantined_views(r.packages_quarantined@) == self@.quarantined,
            r.downloads_blocked@.len() == 0,
    {
        match self {
            Registry::Npm(r) => r.stats(),
            Registry::PyPI(r) => r.stats(),
        }
    }

    /// The variables that send the tools through the proxy and let them trust it.
    pub fn proxy_env_vars(&self, proxy_url: &str, ca_cert_path: &str) -> (r: Vec<(String, String)>)
        ensures
            text::pairs(r@) == proxy_variables(self.family(), proxy_url@, ca_cert_path@),
    {
        match self {
            Registry::Npm(r) => r.proxy_env_vars(proxy_url, ca_cert_path),
            Registry::PyPI(r) => r.proxy_env_vars(proxy_url, ca_cert_path),
        }
    }
}

/// Metadata that is marked as compressed is withheld and not counted.
pub proof fn lemma_compressed_is_blocked(
    family: Ecosystem,
    registry: RegistryView,
    url: target::UrlView,
    fields: Map<Seq<char>, Seq<Seq<u8>>>,
    body: Seq<u8>,
)
    requires
        asks_for_metadata(family, url),
        is_compressed(fields),
    ensures
        answered(family, registry, url, fields, body) == (registry, Action::Block),
{
}

/// A download, or anything else that is not metadata, passes and is not counted.
pub proof fn lemma_downloads_pass(
    family: Ecosystem,
    registry: RegistryView,
    url: target::UrlView,
    fields: Map<Seq<char>, Seq<Seq<u8>>>,
    body: Seq<u8>,
)
    requires
        !asks_for_metadata(family, url),
    ensures
        answered(family, registry, url, fields, body) == (registry, Action::Passthrough),
{
}

/// An answer that is handed on with another body is one package more among those
/// checked and among those with versions withheld, and nothing else is among the
/// latter; the cutoff never moves, and nothing that was remembered is forgotten.
pub proof fn lemma_rewrites_are_counted(
    family: Ecosystem,
    registry: RegistryView,
    url: target::UrlView,
    fields: Map<Seq<char>, Seq<Seq<u8>>>,
    body: Seq<u8>,
)
    ensures
        ({
            let (after, action) = answered(family, registry, url, fields, body);
            &&& after.cutoff == registry.cutoff
            &&& registry.checked <= after.checked <= registry.checked + 1
            &&& registry.quarantined.is_prefix_of(after.quarantined)
            &&& action !is Rewrite ==> after.quarantined == registry.quarantined
            &&& action is Rewrite ==> after.checked == registry.checked + 1
                && after.quarantined.len() == registry.quarantined.len() + 1
                && after.quarantined.last().versions.len() > 0
        }),
{
}

/// An answer that was handed on without what was too new, and comes again, passes
/// unchanged, whatever the registry has seen since, and nothing is withheld for
/// it.
pub proof fn lemma_second_pass(
    family: Ecosystem,
    registry: RegistryView,
    later: RegistryView,
    url: target::UrlView,
    fields: Map<Seq<char>, Seq<Seq<u8>>>,
    body: Seq<u8>,
    rewritten: Seq<u8>,
)
    requires
        finite_releases(family, body),
        answered(family, registry, url, fields, body).1 is Rewrite,
        json::reads_as(rewritten, handed_on(family, registry.cutoff, body)),
        later.cutoff == registry.cutoff,
    ensures
        passed_again(family, later, url, fields, rewritten),
{
    match family {
        Ecosystem::Javascript => {
            npm::lemma_second_pass(
                later,
                npm::metadata_in(body)->Some_0,
                url,
                fields,
                rewritten,
            );
        },
        Ecosystem::Python => {
            pypi::lemma_second_pass(
                later,
                json::parsed_json(body)->Some_0,
                json::parsed_json(rewritten)->Some_0,
            );
        },
    }
}

} // verus!
