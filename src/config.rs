use vstd::prelude::*;

verus! {

/// One run's settings: the inclusive index range, the request window, and
/// the output options.
#[derive(Clone, Copy, Debug, PartialEq, Eq, Structural)]
pub struct Config {
    pub start: usize,
    pub end: usize,
    pub window: usize,
    /// Each index also has an auxiliary payload that is emitted with it.
    pub paired: bool,
    /// Each emitted index is preceded by a frame marker.
    pub framed: bool,
}

/// Why a run could not be configured.
#[derive(Clone, Copy, Debug, PartialEq, Eq, Structural)]
pub enum ConfigError {
    /// The first index is negative, the last precedes the first, or the last
    /// lies past the end of the clip.
    InvalidRange,
    /// Neither a request count nor the producer's parallelism gave a window of
    /// at least one.
    NoWindow,
    /// Frame markers cannot be combined with auxiliary payloads.
    FramedWithAuxiliary,
}

impl Config {
    pub open spec fn valid(&self) -> bool {
        &&& self.start <= self.end
        &&& self.end < usize::MAX
        &&& self.window >= 1
        &&& !(self.framed && self.paired)
    }

    /// How many indices the range holds.
    pub open spec fn range_len(&self) -> nat {
        (self.end - self.start + 1) as nat
    }
}

/// The window in use: the requested count, or the producer's parallelism
/// when no count was requested.
pub open spec fn chosen_window(requests: usize, parallelism: usize) -> usize {
    if requests == 0 {
        parallelism
    } else {
        requests
    }
}

/// The smaller of two counts.
pub open spec fn min_count(a: int, b: int) -> int {
    if a < b {
        a
    } else {
        b
    }
}

/// Checks the settings of a run over a clip of `num_frames` frames.
pub fn validate_config(
    start: i32,
    end: i32,
    num_frames: usize,
    requests: usize,
    parallelism: usize,
    paired: bool,
    framed: bool,
) -> (r: Result<Config, ConfigError>)
    ensures
        (start < 0 || end < start || end >= num_frames) ==> r == Err::<Config, ConfigError>(
            ConfigError::InvalidRange,
        ),
        !(start < 0 || end < start || end >= num_frames) && chosen_window(requests, parallelism)
            == 0 ==> r == Err::<Config, ConfigError>(ConfigError::NoWindow),
        !(start < 0 || end < start || end >= num_frames) && chosen_window(requests, parallelism)
            != 0 && framed && paired ==> r == Err::<Config, ConfigError>(
            ConfigError::FramedWithAuxiliary,
        ),
        !(start < 0 || end < start || end >= num_frames) && chosen_window(requests, parallelism)
            != 0 && !(framed && paired) ==> r == Ok::<Config, ConfigError>(
            (Config {
                start: start as usize,
                end: end as usize,
                window: chosen_window(requests, parallelism),
                paired,
                framed,
            }),
        ),
        r matches Ok(c) ==> c.valid(),
{
    if start < 0 || end < start || end as usize >= num_frames {
        return Err(ConfigError::InvalidRange);
    }
    let window = if requests == 0 {
        parallelism
    } else {
        requests
    };
    if window == 0 {
        return Err(ConfigError::NoWindow);
    }
    if framed && paired {
        return Err(ConfigError::FramedWithAuxiliary);
    }
    Ok(Config { start: start as usize, end: end as usize, window, paired, framed })
}

/// How many indices are requested up front: the window, or the whole range
/// when it is shorter.
pub fn initial_requests(config: &Config) -> (r: usize)
    requires
        config.valid(),
    ensures
        r == min_count(config.window as int, config.range_len() as int),
        r >= 1,
{
    let len = config.end - config.start + 1;
    if config.window < len {
        config.window
    } else {
        len
    }
}

} // verus!
