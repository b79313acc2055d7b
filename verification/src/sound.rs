//! How the party's music is played.

use vstd::prelude::*;

use crate::text::{cat, dec, decimal, push_word, words};

verus! {

/// What is playing, for the line that says so.
pub const STATION: &'static str = "SomaFM · The Trip";

/// A program and what it is called with.
pub struct Player {
    pub program: String,
    pub args: Vec<String>,
}

/// The first player to try, which plays signed 16-bit samples at `rate` from its
/// standard input.
///
/// With a buffer of a second and a half: the music follows nothing on screen, so
/// it has no latency to keep short, while what it plays through can stall.
pub fn pacat(rate: u32, channels: usize) -> (r: Player)
    ensures
        r.program@ == "pacat"@,
        words(r.args@) == seq![
            "--playback"@,
            "--raw"@,
            "--format=s16le"@,
            "--rate="@ + dec(rate as nat),
            "--channels="@ + dec(channels as nat),
            "--latency-msec=1500"@,
            "--client-name=cctop"@,
            "--stream-name="@ + STATION@,
        ],
{
    let mut args: Vec<String> = Vec::new();
    assert(words(args@) =~= Seq::<Seq<char>>::empty());
    push_word(&mut args, "--playback".to_owned());
    push_word(&mut args, "--raw".to_owned());
    push_word(&mut args, "--format=s16le".to_owned());
    push_word(&mut args, cat("--rate=", decimal(rate as u128).as_str()));
    push_word(&mut args, cat("--channels=", decimal(channels as u128).as_str()));
    push_word(&mut args, "--latency-msec=1500".to_owned());
    push_word(&mut args, "--client-name=cctop".to_owned());
    push_word(&mut args, cat("--stream-name=", STATION));
    assert(words(args@) =~= seq![
        "--playback"@,
        "--raw"@,
        "--format=s16le"@,
        "--rate="@ + dec(rate as nat),
        "--channels="@ + dec(channels as nat),
        "--latency-msec=1500"@,
        "--client-name=cctop"@,
        "--stream-name="@ + STATION@,
    ]);
    Player { program: "pacat".to_owned(), args }
}

/// The player to try where the first does not start.
pub fn aplay(rate: u32, channels: usize) -> (r: Player)
    ensures
        r.program@ == "aplay"@,
        words(r.args@) == seq![
            "-q"@,
            "-t"@,
            "raw"@,
            "-f"@,
            "S16_LE"@,
            "-r"@,
            dec(rate as nat),
            "-c"@,
            dec(channels as nat),
            "--buffer-time=1500000"@,
        ],
{
    let mut args: Vec<String> = Vec::new();
    assert(words(args@) =~= Seq::<Seq<char>>::empty());
    push_word(&mut args, "-q".to_owned());
    push_word(&mut args, "-t".to_owned());
    push_word(&mut args, "raw".to_owned());
    push_word(&mut args, "-f".to_owned());
    push_word(&mut args, "S16_LE".to_owned());
    push_word(&mut args, "-r".to_owned());
    push_word(&mut args, decimal(rate as u128));
    push_word(&mut args, "-c".to_owned());
    push_word(&mut args, decimal(channels as u128));
    push_word(&mut args, "--buffer-time=1500000".to_owned());
    assert(words(args@) =~= seq![
        "-q"@,
        "-t"@,
        "raw"@,
        "-f"@,
        "S16_LE"@,
        "-r"@,
        dec(rate as nat),
        "-c"@,
        dec(channels as nat),
        "--buffer-time=1500000"@,
    ]);
    Player { program: "aplay".to_owned(), args }
}

} // verus!
