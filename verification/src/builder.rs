//! Start-up configuration of a MAGIC process, and what is handed to the
//! operating system to start one from it.

use vstd::prelude::*;
use vstd::string::*;
use vstd::utf8::*;
use crate::decimal::{decimal, lemma_decimal_is_digits, lemma_decimal_is_injective, to_decimal};
use crate::line::{first_line, lemma_first_line};

verus! {

/// The port on which MAGIC listens unless another one is configured.
pub const DEFAULT_PORT: u16 = 9999;

/// The start-up parameters as mathematical values: what a
/// [`MagicInstanceBuilder`] holds.
pub struct Settings {
    /// Directory in which MAGIC is started; `None` inherits the caller's.
    pub cwd: Option<Seq<char>>,
    /// Technology name handed to MAGIC; `None` passes no technology flag.
    pub tech: Option<Seq<char>>,
    /// Path to the MAGIC binary; `None` resolves it by name.
    pub magic: Option<Seq<char>>,
    /// Port of the command listener.
    pub port: u16,
}

impl Settings {
    /// The parameters that apply when nothing is configured.
    pub open spec fn initial() -> Settings {
        Settings { cwd: None, tech: None, magic: None, port: DEFAULT_PORT }
    }

    /// The program to run: the configured binary, or the name `magic`, which
    /// the operating system resolves through its search path.
    pub open spec fn program(self) -> Seq<char> {
        match self.magic {
            Some(path) => path,
            None => "magic"@,
        }
    }

    /// The arguments of the program: no display, no console, and the
    /// technology if one is configured.
    pub open spec fn arguments(self) -> Seq<Seq<char>> {
        match self.tech {
            Some(tech) => seq!["-dnull"@, "-noconsole"@, "-T"@, tech],
            None => seq!["-dnull"@, "-noconsole"@],
        }
    }

    /// The script line that assigns the port to the variable `svcPort`.
    pub open spec fn port_assignment(self) -> Seq<char> {
        "set svcPort "@ + decimal(self.port as nat) + "\n"@
    }

    /// The bytes written to the input of the process: the port assignment,
    /// then the bootstrap script.
    pub open spec fn bootstrap(self, script: Seq<u8>) -> Seq<u8> {
        encode_utf8(self.port_assignment()) + script
    }

    /// The loopback address of the command listener.
    pub open spec fn address(self) -> Seq<char> {
        "127.0.0.1:"@ + decimal(self.port as nat)
    }
}

/// A builder for the start-up parameters of a MAGIC process.
///
/// Each setter returns the builder with one parameter replaced; a parameter
/// set twice keeps the later value. Nothing is validated here.
pub struct MagicInstanceBuilder {
    cwd: Option<String>,
    tech: Option<String>,
    magic: Option<String>,
    port: u16,
}

impl View for MagicInstanceBuilder {
    type V = Settings;

    closed spec fn view(&self) -> Settings {
        Settings {
            cwd: self.cwd.deep_view(),
            tech: self.tech.deep_view(),
            magic: self.magic.deep_view(),
            port: self.port,
        }
    }
}

impl Default for MagicInstanceBuilder {
    /// The builder that holds the initial parameters.
    fn default() -> (builder: Self)
        ensures
            builder@ == Settings::initial(),
    {
        MagicInstanceBuilder { cwd: None, tech: None, magic: None, port: DEFAULT_PORT }
    }
}

impl MagicInstanceBuilder {
    /// Creates a builder that holds the initial parameters: no working
    /// directory, no technology, no binary path, port 9999.
    pub fn new() -> (builder: Self)
        ensures
            builder@ == Settings::initial(),
    {
        Self::default()
    }

    /// Sets the working directory in which MAGIC is started.
    pub fn cwd(self, cwd: &str) -> (builder: Self)
        ensures
            builder@ == (Settings { cwd: Some(cwd@), ..self@ }),
    {
        let mut builder = self;
        builder.cwd = Some(cwd.to_owned());
        builder
    }

    /// Sets the name of the technology for MAGIC to use.
    pub fn tech(self, tech: &str) -> (builder: Self)
        ensures
            builder@ == (Settings { tech: Some(tech@), ..self@ }),
    {
        let mut builder = self;
        builder.tech = Some(tech.to_owned());
        builder
    }

    /// Sets the path to the MAGIC binary.
    ///
    /// Without one the binary is found through the search path of the
    /// operating system.
    pub fn magic(self, magic: &str) -> (builder: Self)
        ensures
            builder@ == (Settings { magic: Some(magic@), ..self@ }),
    {
        let mut builder = self;
        builder.magic = Some(magic.to_owned());
        builder
    }

    /// Sets the port on which MAGIC listens for commands.
    pub fn port(self, port: u16) -> (builder: Self)
        ensures
            builder@ == (Settings { port, ..self@ }),
    {
        let mut builder = self;
        builder.port = port;
        builder
    }

    /// Returns the program to run.
    pub fn program(&self) -> (program: String)
        ensures
            program@ == self@.program(),
    {
        match &self.magic {
            Some(path) => path.clone(),
            None => "magic".to_owned(),
        }
    }

    /// Returns the arguments to run the program with.
    pub fn arguments(&self) -> (arguments: Vec<String>)
        ensures
            arguments.deep_view() == self@.arguments(),
    {
        let mut arguments: Vec<String> = Vec::new();
        arguments.push("-dnull".to_owned());
        arguments.push("-noconsole".to_owned());
        if let Some(tech) = &self.tech {
            arguments.push("-T".to_owned());
            arguments.push(tech.clone());
        }
        assert(arguments.deep_view() =~= self@.arguments());
        arguments
    }

    /// Returns the directory to start the program in, if one is configured.
    pub fn directory(&self) -> (directory: Option<String>)
        ensures
            directory.deep_view() == self@.cwd,
    {
        match &self.cwd {
            Some(path) => Some(path.clone()),
            None => None,
        }
    }

    /// Returns the bytes to write to the input of the started program: the
    /// line that assigns the port, followed by `script`.
    pub fn bootstrap(&self, script: &[u8]) -> (input: Vec<u8>)
        ensures
            input@ == self@.bootstrap(script@),
    {
        let mut line = "set svcPort ".to_owned();
        let number = to_decimal(self.port);
        line.append(number.as_str());
        line.append("\n");
        let mut input: Vec<u8> = Vec::new();
        input.extend_from_slice(line.as_str().as_bytes());
        input.extend_from_slice(script);
        input
    }

    /// Returns the address to connect to: the loopback interface and the
    /// configured port.
    pub fn address(&self) -> (address: String)
        ensures
            address@ == self@.address(),
    {
        let mut address = "127.0.0.1:".to_owned();
        let number = to_decimal(self.port);
        address.append(number.as_str());
        address
    }
}

/// The port assignment is one line of the script: the text that assigns the
/// port in decimal notation, then a line feed.
pub proof fn lemma_port_assignment_is_one_line(settings: Settings)
    ensures
        first_line(settings.port_assignment()) == Some(
            "set svcPort "@ + decimal(settings.port as nat),
        ),
{
    reveal_strlit("set svcPort ");
    reveal_strlit("\n");
    let number = decimal(settings.port as nat);
    let text = "set svcPort "@ + number;
    lemma_decimal_is_digits(settings.port as nat);
    assert forall|j: int| 0 <= j < text.len() implies text[j] != '\n' by {
        if j >= 12 {
            assert(text[j] == number[j - 12]);
        }
    }
    lemma_first_line(text, "\n"@);
}

/// Different ports give different listeners: neither the address to connect
/// to nor the port assignment handed to the process is shared by two ports.
pub proof fn lemma_ports_keep_apart(one: Settings, other: Settings)
    requires
        one.port != other.port,
    ensures
        one.address() != other.address(),
        one.port_assignment() != other.port_assignment(),
{
    let first = decimal(one.port as nat);
    let second = decimal(other.port as nat);
    if first == second {
        lemma_decimal_is_injective(one.port as nat, other.port as nat);
    }
    let host = "127.0.0.1:"@;
    if one.address() == other.address() {
        assert(first =~= (host + first).skip(host.len() as int));
        assert(second =~= (host + second).skip(host.len() as int));
    }
    let set = "set svcPort "@;
    if one.port_assignment() == other.port_assignment() {
        assert((set + first + "\n"@).len() == (set + second + "\n"@).len());
        assert(first =~= (set + first + "\n"@).subrange(
            set.len() as int,
            (set.len() + first.len()) as int,
        ));
        assert(second =~= (set + second + "\n"@).subrange(
            set.len() as int,
            (set.len() + second.len()) as int,
        ));
    }
}

} // verus!
