//! The command line of the capture pipeline, and the message for a pipeline
//! that could not be started.
//!
//! The pipeline is one shell command: a remote capture, which dumps the
//! device's framebuffer over a secure shell once a second, piped into a local
//! transcoder, which turns the raw pixels into a motion-JPEG stream on its
//! standard output.

use vstd::prelude::*;

verus! {

/// Program that runs the pipeline.
pub const SHELL: &'static str = "sh";

/// Flag with which `SHELL` takes the pipeline as its next argument.
pub const SHELL_COMMAND_FLAG: &'static str = "-c";

/// The remote capture up to the host.
pub const CAPTURE_LOGIN: &'static str = "ssh root@";

/// Between host and port.
pub const CAPTURE_PORT_FLAG: &'static str = " -p ";

/// The remote capture after the port: no host-key check, no interactive
/// login, and the loop that dumps one framebuffer a second.
pub const CAPTURE_LOOP: &'static str =
    " -o StrictHostKeyChecking=no -o BatchMode=yes \"while true; do dd if=/dev/fb0 bs=1872 count=2480 2>/dev/null; sleep 1; done\"";

/// Joins the capture to the transcoder.
pub const PIPE: &'static str = " | ";

/// The local transcoder: raw gray pixels in, cropped motion-JPEG out.
pub const TRANSCODE: &'static str =
    "ffmpeg -loglevel warning -f rawvideo -pixel_format gray -video_size 1872x2480 -framerate 1 -i - -vf \"crop=1860:2480:0:0\" -r 1 -f image2pipe -vcodec mjpeg pipe:1";

/// Opens the message for a pipeline that could not be started.
pub const SPAWN_FAILURE_PREFIX: &'static str = "Failed to start process: ";

/// Text of the remote capture command for `host` and `port`.
pub open spec fn capture_text(host: Seq<char>, port: Seq<char>) -> Seq<char> {
    CAPTURE_LOGIN@ + host + CAPTURE_PORT_FLAG@ + port + CAPTURE_LOOP@
}

/// Text of the whole pipeline for `host` and `port`.
pub open spec fn pipeline_text(host: Seq<char>, port: Seq<char>) -> Seq<char> {
    capture_text(host, port) + PIPE@ + TRANSCODE@
}

/// The shell command that captures from `host` at `port` and transcodes.
/// Host and port are put in as they are.
pub fn pipeline_command(host: &str, port: &str) -> (command: String)
    ensures
        command@ == pipeline_text(host@, port@),
{
    let mut command = String::from_str(CAPTURE_LOGIN);
    command.append(host);
    command.append(CAPTURE_PORT_FLAG);
    command.append(port);
    command.append(CAPTURE_LOOP);
    command.append(PIPE);
    command.append(TRANSCODE);
    command
}

/// The message that a start request is answered with when the pipeline
/// could not be spawned; `detail` is the system's description of why.
pub fn spawn_failure(detail: &str) -> (message: String)
    ensures
        message@ == SPAWN_FAILURE_PREFIX@ + detail@,
{
    let mut message = String::from_str(SPAWN_FAILURE_PREFIX);
    message.append(detail);
    message
}

} // verus!
