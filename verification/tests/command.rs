use frame_feed::command::{
    pipeline_command, spawn_failure, CAPTURE_LOGIN, CAPTURE_LOOP, CAPTURE_PORT_FLAG, PIPE, SHELL,
    SHELL_COMMAND_FLAG, SPAWN_FAILURE_PREFIX, TRANSCODE,
};

#[test]
fn pipeline_runs_under_the_shell() {
    assert_eq!(SHELL, "sh");
    assert_eq!(SHELL_COMMAND_FLAG, "-c");
}

#[test]
fn pipeline_command_for_host_and_port() {
    let expected = "ssh root@10.11.99.1 -p 22 -o StrictHostKeyChecking=no -o BatchMode=yes \"while true; do dd if=/dev/fb0 bs=1872 count=2480 2>/dev/null; sleep 1; done\" | ffmpeg -loglevel warning -f rawvideo -pixel_format gray -video_size 1872x2480 -framerate 1 -i - -vf \"crop=1860:2480:0:0\" -r 1 -f image2pipe -vcodec mjpeg pipe:1";
    assert_eq!(pipeline_command("10.11.99.1", "22"), expected);
}

#[test]
fn pipeline_command_is_made_of_its_parts() {
    let command = pipeline_command("tablet.local", "2222");
    let expected = format!(
        "{}{}{}{}{}{}{}",
        CAPTURE_LOGIN, "tablet.local", CAPTURE_PORT_FLAG, "2222", CAPTURE_LOOP, PIPE, TRANSCODE
    );
    assert_eq!(command, expected);
}

#[test]
fn pipeline_command_takes_host_and_port_as_they_are() {
    let command = pipeline_command("", "");
    assert!(command.starts_with("ssh root@ -p  -o StrictHostKeyChecking=no"));
    let odd = pipeline_command("h\u{e9}te", "p 1");
    assert!(odd.starts_with("ssh root@h\u{e9}te -p p 1 -o "));
}

#[test]
fn spawn_failure_names_the_cause() {
    assert_eq!(SPAWN_FAILURE_PREFIX, "Failed to start process: ");
    assert_eq!(
        spawn_failure("No such file or directory (os error 2)"),
        "Failed to start process: No such file or directory (os error 2)"
    );
    assert_eq!(spawn_failure(""), "Failed to start process: ");
}
