use setup_center::orphan::{
    image_name, is_managed_command_line, is_managed_ps_line_bytes, is_python_image, merge_stopped,
    parse_ps_line, split_fields, PROCESSENTRY32W,
};

fn entry(name: &str, pid: u32) -> PROCESSENTRY32W {
    let mut exe = [0u16; 260];
    for (i, u) in name.encode_utf16().enumerate() {
        exe[i] = u;
    }
    PROCESSENTRY32W {
        dw_size: 568,
        cnt_usage: 0,
        th32_process_id: pid,
        th32_default_heap_id: 0,
        th32_module_id: 0,
        cnt_threads: 1,
        th32_parent_process_id: 4,
        pc_pri_class_base: 8,
        dw_flags: 0,
        sz_exe_file: exe,
    }
}

#[test]
fn python_images() {
    let e = entry("PythonW.exe", 10);
    assert_eq!(String::from_utf16(&image_name(&e)).unwrap(), "PythonW.exe");
    assert!(is_python_image(&e));
    assert!(is_python_image(&entry("python3.11.exe", 11)));
    assert!(!is_python_image(&entry("pyth.exe", 12)));
    assert!(!is_python_image(&entry("", 13)));
    let mut full = entry("", 14);
    full.sz_exe_file = [b'a' as u16; 260];
    assert_eq!(image_name(&full).len(), 260);
}

#[test]
fn windows_command_lines() {
    assert!(is_managed_command_line(b"\"C:\\v\\Scripts\\pythonw.exe\" -m openakita.main serve\r\n"));
    assert!(is_managed_command_line(b"python -m OpenAkita.Main SERVE"));
    assert!(is_managed_command_line(b"python -m openakita.main --x serve"));
    assert!(!is_managed_command_line(b"python C:\\Users\\a\\.openakita\\venv\\x.py serve"));
    assert!(!is_managed_command_line(b"python -m openakita.main init"));
    assert!(!is_managed_command_line(b""));
}

#[test]
fn ps_lines() {
    let line = b"ann  4821  0.5  1.2 123456 65432 ?  Sl  10:00  0:03 /v/bin/python -m openakita.main serve";
    assert!(is_managed_ps_line_bytes(line));
    let p = parse_ps_line(line).unwrap();
    assert_eq!(p.pid, 4821);
    assert_eq!(p.cmd, b"/v/bin/python -m openakita.main serve".to_vec());
    assert!(parse_ps_line(b"ann 4821 x openakita.main init").is_none());
    assert!(parse_ps_line(b"ann notapid openakita.main serve").is_none());
    let short = parse_ps_line(b"ann 77 openakita.main serve").unwrap();
    assert_eq!(short.pid, 77);
    assert!(short.cmd.is_empty());
    assert!(!is_managed_ps_line_bytes(b"serve openakita.main"));
}

#[test]
fn whitespace_fields() {
    assert_eq!(split_fields(b"  a bb\tc  "), vec![(2, 3), (4, 6), (7, 8)]);
    assert!(split_fields(b"   ").is_empty());
}

#[test]
fn stopped_pids_merge_without_duplicates() {
    assert_eq!(merge_stopped(vec![3, 5], &vec![5, 7, 7, 3, 9]), vec![3, 5, 7, 9]);
    assert_eq!(merge_stopped(vec![], &vec![]), Vec::<u32>::new());
}
