//! Setting a chain up: which plugins it has, whether their channels fit, and what the output
//! file looks like.
use vstd::prelude::*;

use crate::plugin::{PluginLookup, PluginSetting, PortCounts};
use crate::text;
use crate::text::decimal_text;

verus! {

/// Why a chain cannot be set up.
#[derive(Debug)]
pub enum ChainError {
    /// Neither the command line nor a chain file names a plugin.
    NoPlugins,
    /// No installed plugin fits this identifier.
    NotFound(String),
    /// Several installed plugins fit the identifier: these.
    Ambiguous(String, Vec<String>),
    /// The input has other channels than the first plugin takes.
    InputMismatch { input: usize, expected: usize },
    /// The plugin behind the one with this number, counted from 1, takes other channels than
    /// that one gives.
    StageMismatch { stage: usize, outputs: usize, expected: usize },
}

/// The texts, one on each line.
pub open spec fn lines(list: Seq<Seq<char>>) -> Seq<char>
    decreases list.len(),
{
    if list.len() == 0 {
        Seq::<char>::empty()
    } else if list.len() == 1 {
        list[0]
    } else {
        lines(list.drop_last()).push('\n') + list.last()
    }
}

/// Puts the texts one on each line.
fn join_lines(list: &Vec<String>) -> (joined: String)
    ensures
        joined@ == lines(text::strings(list@)),
{
    let mut joined = String::new();
    let ghost model = text::strings(list@);
    assert(model.take(0) == Seq::<Seq<char>>::empty());
    for i in 0..list.len()
        invariant
            model == text::strings(list@),
            joined@ == lines(model.take(i as int)),
    {
        assert(model.take(i + 1).drop_last() == model.take(i as int));
        if i > 0 {
            joined.push('\n');
        }
        joined.append(list[i].as_str());
        assert(joined@ =~= lines(model.take(i + 1)));
    }
    assert(model.take(list@.len() as int) == model);
    joined
}

/// The message for an error.
pub open spec fn chain_error_text(e: ChainError) -> Seq<char> {
    match e {
        ChainError::NoPlugins =>
            "At least one plugin must be specified via CLI or config file (-f)"@,
        ChainError::NotFound(identifier) => "Plugin '"@ + identifier@ + "' not found"@,
        ChainError::Ambiguous(identifier, candidates) => "Plugin '"@ + identifier@
            + "' is ambiguous. Candidates:\n"@ + lines(text::strings(candidates@)),
        ChainError::InputMismatch { input, expected } => "Channel mismatch: input has "@
            + text::decimal(input as nat) + " channels, first plugin expects "@ + text::decimal(
            expected as nat,
        ),
        ChainError::StageMismatch { stage, outputs, expected } => "Chain mismatch: plugin "@
            + text::decimal(stage as nat) + " outputs "@ + text::decimal(outputs as nat)
            + " channels, but plugin "@ + text::decimal(stage as nat + 1) + " expects "@
            + text::decimal(expected as nat),
    }
}

impl ChainError {
    /// The message for the user.
    pub fn message(&self) -> (text: String)
        ensures
            text@ == chain_error_text(*self),
            self is NoPlugins ==> text@
                == "At least one plugin must be specified via CLI or config file (-f)"@,
            self matches ChainError::NotFound(identifier) ==> text@ == "Plugin '"@ + identifier@
                + "' not found"@,
            self matches ChainError::Ambiguous(identifier, candidates) ==> text@ == "Plugin '"@
                + identifier@ + "' is ambiguous. Candidates:\n"@ + lines(
                text::strings(candidates@),
            ),
            self matches ChainError::InputMismatch { input, expected } ==> text@
                == "Channel mismatch: input has "@ + text::decimal(input as nat)
                + " channels, first plugin expects "@ + text::decimal(expected as nat),
            self matches ChainError::StageMismatch { stage, outputs, expected } ==> text@
                == "Chain mismatch: plugin "@ + text::decimal(stage as nat) + " outputs "@
                + text::decimal(outputs as nat) + " channels, but plugin "@ + text::decimal(
                stage as nat + 1,
            ) + " expects "@ + text::decimal(expected as nat),
    {
        let mut text = String::new();
        match self {
            ChainError::NoPlugins => {
                text.append("At least one plugin must be specified via CLI or config file (-f)");
            },
            ChainError::NotFound(identifier) => {
                text.append("Plugin '");
                text.append(identifier.as_str());
                text.append("' not found");
            },
            ChainError::Ambiguous(identifier, candidates) => {
                text.append("Plugin '");
                text.append(identifier.as_str());
                text.append("' is ambiguous. Candidates:\n");
                text.append(join_lines(candidates).as_str());
            },
            ChainError::InputMismatch { input, expected } => {
                text.append("Channel mismatch: input has ");
                text.append(decimal_text(*input as u128).as_str());
                text.append(" channels, first plugin expects ");
                text.append(decimal_text(*expected as u128).as_str());
            },
            ChainError::StageMismatch { stage, outputs, expected } => {
                text.append("Chain mismatch: plugin ");
                text.append(decimal_text(*stage as u128).as_str());
                text.append(" outputs ");
                text.append(decimal_text(*outputs as u128).as_str());
                text.append(" channels, but plugin ");
                text.append(decimal_text(*stage as u128 + 1).as_str());
                text.append(" expects ");
                text.append(decimal_text(*expected as u128).as_str());
            },
        }
        assert(text@ =~= chain_error_text(*self));
        text
    }
}

/// Chooses the chain: that of the chain file if there is one, else the plugins of the command
/// line, of which there has to be one at least.
pub fn select_chain(
    from_file: Option<Vec<PluginSetting>>,
    plugins: Vec<PluginSetting>,
) -> (r: Result<Vec<PluginSetting>, ChainError>)
    ensures
        r == match from_file {
            Some(chain) => Ok::<Vec<PluginSetting>, ChainError>(chain),
            None => if plugins@.len() == 0 {
                Err(ChainError::NoPlugins)
            } else {
                Ok(plugins)
            },
        },
{
    match from_file {
        Some(chain) => Ok(chain),
        None => {
            if plugins.len() == 0 {
                Err(ChainError::NoPlugins)
            } else {
                Ok(plugins)
            }
        },
    }
}

/// The number of the plugin that the lookup gave, or the error for the user.
pub fn found_plugin(lookup: PluginLookup, identifier: &str) -> (r: Result<usize, ChainError>)
    ensures
        match lookup {
            PluginLookup::Found(i) => r == Ok::<usize, ChainError>(i),
            PluginLookup::NotFound => r matches Err(ChainError::NotFound(name)) && name@
                == identifier@,
            PluginLookup::Ambiguous(list) => r matches Err(ChainError::Ambiguous(name, candidates))
                && name@ == identifier@ && candidates == list,
        },
{
    match lookup {
        PluginLookup::Found(i) => Ok(i),
        PluginLookup::NotFound => Err(ChainError::NotFound(identifier.to_string())),
        PluginLookup::Ambiguous(candidates) => Err(
            ChainError::Ambiguous(identifier.to_string(), candidates),
        ),
    }
}

/// Whether a plugin can take the channels of the input: as many as it has, or one channel for
/// a plugin that takes two.
pub open spec fn takes_input(input: usize, ports: PortCounts) -> bool {
    ports.audio_inputs == input || upmixes(input, ports)
}

/// Whether the one channel of the input goes to both inputs of the first plugin.
pub open spec fn upmixes(input: usize, ports: PortCounts) -> bool {
    input == 1 && ports.audio_inputs == 2
}

/// Whether a chain can render an input: the first plugin takes its channels, and every other
/// plugin takes as many channels as the one before it gives.
pub open spec fn compatible(input: usize, stages: Seq<PortCounts>) -> bool {
    &&& stages.len() > 0 ==> takes_input(input, stages[0])
    &&& forall|i: int|
        0 < i < stages.len() ==> (#[trigger] stages[i]).audio_inputs == stages[i
            - 1].audio_outputs
}

/// How many channels come out of a chain.
pub open spec fn channels_after(input: usize, stages: Seq<PortCounts>) -> usize {
    if stages.len() == 0 {
        input
    } else {
        stages.last().audio_outputs
    }
}

/// What an output file holds.
#[derive(Debug, Clone, Copy, PartialEq, Eq, Structural)]
pub enum SampleFormat {
    Float,
    Int,
}

/// The format of an output file.
#[derive(Debug, Clone, Copy, PartialEq, Eq, Structural)]
pub struct WavSpec {
    pub channels: u16,
    pub sample_rate: u32,
    pub bits_per_sample: u16,
    pub sample_format: SampleFormat,
}

/// A chain whose channels fit.
#[derive(Debug)]
pub struct ChainPlan {
    pub input_channels: usize,
    pub stages: Vec<PortCounts>,
}

impl ChainPlan {
    /// The channels fit all along the chain.
    pub open spec fn wf(self) -> bool {
        compatible(self.input_channels, self.stages@)
    }

    /// A chain with no plugin yet, for an input of so many channels.
    pub fn new(input_channels: usize) -> (plan: Self)
        ensures
            plan.wf(),
            plan.input_channels == input_channels,
            plan.stages@.len() == 0,
    {
        ChainPlan { input_channels, stages: Vec::new() }
    }

    /// Puts a plugin behind those of the chain, if its channels fit. Gives whether a mono
    /// input is spread over the two inputs of the plugin.
    pub fn add(&mut self, ports: PortCounts) -> (r: Result<bool, ChainError>)
        requires
            old(self).wf(),
        ensures
            final(self).wf(),
            final(self).input_channels == old(self).input_channels,
            final(self).stages@ == (if compatible(
                old(self).input_channels,
                old(self).stages@.push(ports),
            ) {
                old(self).stages@.push(ports)
            } else {
                old(self).stages@
            }),
            r == (if compatible(old(self).input_channels, old(self).stages@.push(ports)) {
                Ok::<bool, ChainError>(
                    old(self).stages@.len() == 0 && upmixes(old(self).input_channels, ports),
                )
            } else if old(self).stages@.len() == 0 {
                Err(
                    ChainError::InputMismatch {
                        input: old(self).input_channels,
                        expected: ports.audio_inputs,
                    },
                )
            } else {
                Err(
                    ChainError::StageMismatch {
                        stage: old(self).stages@.len() as usize,
                        outputs: channels_after(old(self).input_channels, old(self).stages@),
                        expected: ports.audio_inputs,
                    },
                )
            }),
            old(self).stages@.len() == 0 ==> (r is Ok <==> ports.audio_inputs == old(
                self,
            ).input_channels || (old(self).input_channels == 1 && ports.audio_inputs == 2)),
            old(self).stages@.len() > 0 ==> (r is Ok <==> ports.audio_inputs == old(
                self,
            ).stages@[old(self).stages@.len() - 1].audio_outputs),
            r matches Ok(upmix) ==> final(self).stages@ == old(self).stages@.push(ports) && upmix
                == (old(self).stages@.len() == 0 && old(self).input_channels == 1
                && ports.audio_inputs == 2),
            r is Err ==> final(self).stages@ == old(self).stages@,
    {
        let count: usize = self.stages.len();
        let ghost longer = self.stages@.push(ports);
        assert(longer[count as int] == ports);
        assert(forall|i: int| 0 <= i < count ==> longer[i] == self.stages@[i]);
        if count == 0 {
            if ports.audio_inputs == self.input_channels {
                self.stages.push(ports);
                Ok(false)
            } else if ports.audio_inputs == 2 && self.input_channels == 1 {
                self.stages.push(ports);
                Ok(true)
            } else {
                Err(
                    ChainError::InputMismatch {
                        input: self.input_channels,
                        expected: ports.audio_inputs,
                    },
                )
            }
        } else {
            let outputs = self.stages[count - 1].audio_outputs;
            if ports.audio_inputs == outputs {
                self.stages.push(ports);
                Ok(false)
            } else {
                Err(
                    ChainError::StageMismatch {
                        stage: count,
                        outputs,
                        expected: ports.audio_inputs,
                    },
                )
            }
        }
    }

    /// How many channels come out of the chain.
    pub fn output_channels(&self) -> (channels: usize)
        ensures
            channels == channels_after(self.input_channels, self.stages@),
            self.stages@.len() == 0 ==> channels == self.input_channels,
            self.stages@.len() > 0 ==> channels == self.stages@[self.stages@.len()
                - 1].audio_outputs,
    {
        let count: usize = self.stages.len();
        if count == 0 {
            self.input_channels
        } else {
            self.stages[count - 1].audio_outputs
        }
    }

    /// The format of the output file: 32 bit floats. The file has 16 bits for the number of
    /// channels.
    pub fn wav_spec(&self, sample_rate: u32) -> (format: WavSpec)
        ensures
            format == (WavSpec {
                channels: (channels_after(self.input_channels, self.stages@) as int % 0x1_0000) as u16,
                sample_rate,
                bits_per_sample: 32,
                sample_format: SampleFormat::Float,
            }),
            self.stages@.len() == 0 ==> format.channels as int == self.input_channels as int
                % 0x1_0000,
            self.stages@.len() > 0 ==> format.channels as int == self.stages@[self.stages@.len()
                - 1].audio_outputs as int % 0x1_0000,
    {
        let channels = self.output_channels();
        WavSpec {
            channels: (channels % 0x1_0000) as u16,
            sample_rate,
            bits_per_sample: 32,
            sample_format: SampleFormat::Float,
        }
    }
}

} // verus!
