//! Configuration threaded into the surrounding line-reading loop: whether an
//! interactive prompt is printed. A presentation concern only, with no
//! effect on what an expression evaluates to.

use vstd::prelude::*;

verus! {

/// Presentation settings for the surrounding interactive loop.
#[derive(Clone, Copy, Debug, PartialEq, Eq, Structural)]
pub struct Config {
    pub enable_prompt: bool,
}

impl Config {
    /// The default configuration: the prompt is shown.
    pub fn new() -> (c: Config)
        ensures
            c.enable_prompt,
    {
        Config { enable_prompt: true }
    }

    /// Applies command-line arguments: any argument `-p` switches the prompt
    /// off; every other argument is ignored.
    pub fn set_config(&mut self, args: &Vec<String>)
        ensures
            final(self).enable_prompt == (old(self).enable_prompt && !(exists|j: int|
                0 <= j < args@.len() && args@[j]@ == "-p"@)),
    {
        let flag: String = "-p".to_owned();
        let mut i: usize = 0;
        while i < args.len()
            invariant
                flag@ == "-p"@,
                0 <= i <= args@.len(),
                self.enable_prompt == (old(self).enable_prompt && !(exists|j: int|
                    0 <= j < i && args@[j]@ == "-p"@)),
            decreases args@.len() - i,
        {
            if args[i].eq(&flag) {
                self.enable_prompt = false;
                proof {
                    assert(args@[i as int]@ == "-p"@);
                    assert(exists|j: int| 0 <= j < i as int + 1 && args@[j]@ == "-p"@);
                }
            } else {
                proof {
                    if exists|j: int| 0 <= j < i as int + 1 && args@[j]@ == "-p"@ {
                        let j = choose|j: int| 0 <= j < i as int + 1 && args@[j]@ == "-p"@;
                        assert(0 <= j < i && args@[j]@ == "-p"@);
                    }
                }
            }
            i += 1;
        }
    }
}

/// The application: it owns the configuration that the surrounding
/// interactive loop runs with.
#[derive(Clone, Copy, Debug, PartialEq, Eq, Structural)]
pub struct Application {
    pub config: Config,
}

impl Application {
    /// Builds the application around a configuration.
    pub fn new(config: Config) -> (app: Application)
        ensures
            app.config == config,
    {
        Application { config: config }
    }
}

} // verus!
