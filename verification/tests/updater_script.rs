use unixtract::script::{
    basename, dumper_script, parse_updater_script, partition_map, shell_single_quote, ScriptAction,
};

fn s(v: Vec<char>) -> String {
    v.into_iter().collect()
}

fn cs(x: &str) -> Vec<char> {
    x.chars().collect()
}

const SCRIPT: &str = r#"
# comment line
whole_image_update("\"/dev/block/mmcblk0p1\"", "\"boot.img\"");
whole_image_update("/dev/plain", "plain.img");
block_Backup("\"/dev/block/sda\"", 100, 20);
block_Recovery("\"/dev/block/sdb\"", 7, 3);
package_extract_file("\"rootfs.img\"", "\"/tmp/rootfs.img\"");
"#;

#[test]
fn updater_script_actions() {
    let actions = parse_updater_script(SCRIPT);
    assert_eq!(actions.len(), 4);
    match &actions[0] {
        ScriptAction::WholeImage { device, image } => {
            assert_eq!(device, "/dev/block/mmcblk0p1");
            assert_eq!(image, "boot.img");
        }
        _ => panic!("first action"),
    }
    match &actions[1] {
        ScriptAction::BlockBackup { device, offset, blocks } => {
            assert_eq!(device, "/dev/block/sda");
            assert_eq!((*offset, *blocks), (100, 20));
        }
        _ => panic!("second action"),
    }
    match &actions[2] {
        ScriptAction::BlockRecovery { device, offset, blocks } => {
            assert_eq!(device, "/dev/block/sdb");
            assert_eq!((*offset, *blocks), (7, 3));
        }
        _ => panic!("third action"),
    }
    match &actions[3] {
        ScriptAction::PackageExtract { image, destination } => {
            assert_eq!(image, "rootfs.img");
            assert_eq!(destination, "/tmp/rootfs.img");
        }
        _ => panic!("fourth action"),
    }
}

#[test]
fn dumper_script_text() {
    let actions = parse_updater_script(SCRIPT);
    let expected = "#!/system/bin/sh\nset -eu\nOUT=\"/sdcard/unixtract_dump\"\nmkdir -p \"$OUT\"\n\n\
echo \"Dumping '/dev/block/mmcblk0p1' to 'boot.img'\"\n\
dd if='/dev/block/mmcblk0p1' of=\"$OUT/'boot.img'\" bs=1M conv=fsync\n\n\
# block_Backup /dev/block/sda offset=100 blocks=20\n\
# block_Recovery /dev/block/sdb offset=7 blocks=3\n\
# Optional package_extract_file payload: /tmp/rootfs.img\n\
if [ -f '/tmp/rootfs.img' ]; then dd if='/tmp/rootfs.img' of=\"$OUT/'rootfs.img'\" bs=1M conv=fsync; fi\n\n\
sync\necho \"Done: $OUT\"\n";
    assert_eq!(s(dumper_script(&actions)), expected);
}

#[test]
fn dumper_script_without_whole_images() {
    let actions = parse_updater_script("block_Backup(\"\\\"/dev/x\\\"\", 1, 2);");
    assert_eq!(actions.len(), 1);
    let expected = "#!/system/bin/sh\nset -eu\nOUT=\"/sdcard/unixtract_dump\"\nmkdir -p \"$OUT\"\n\n\
# block_Backup /dev/x offset=1 blocks=2\n\
echo \"No whole_image_update partitions found in updater-script.\"\n\
sync\necho \"Done: $OUT\"\n";
    assert_eq!(s(dumper_script(&actions)), expected);
}

#[test]
fn partition_map_text() {
    let actions = parse_updater_script(SCRIPT);
    let expected = "operation\tdevice\timage\toffset\tblocks\n\
whole_image\t/dev/block/mmcblk0p1\tboot.img\t\t\n\
block_backup\t/dev/block/sda\t\t100\t20\n\
block_recovery\t/dev/block/sdb\t\t7\t3\n\
package_extract\t\trootfs.img\t\t/tmp/rootfs.img\n";
    assert_eq!(s(partition_map(&actions)), expected);
}

#[test]
fn quoting_and_base_names() {
    assert_eq!(s(shell_single_quote(&cs("it's"))), "'it'\\''s'");
    assert_eq!(s(shell_single_quote(&cs(""))), "''");
    assert_eq!(s(basename(&cs("/a/b/c.img"))), "c.img");
    assert_eq!(s(basename(&cs("a/b/"))), "b");
    assert_eq!(s(basename(&cs(""))), "dump.img");
    assert_eq!(s(basename(&cs("/"))), "dump.img");
    assert_eq!(s(basename(&cs("a/.."))), "dump.img");
}

#[test]
fn blank_and_comment_lines_change_nothing() {
    let w = "whole_image_update(\"\\\"/dev/a\\\"\", \"\\\"a.img\\\"\");";
    let p = "package_extract_file(\"\\\"b.img\\\"\", \"\\\"/dev/b\\\"\");";
    let base = format!("{}\n{}", w, p);
    let with_lines = format!("   \n# note\n{}\n\t\n  # block_Backup(\"x\", 1, 2);\n{}\n", w, p);
    let a = format!("{:?}", parse_updater_script(&base));
    let b = format!("{:?}", parse_updater_script(&with_lines));
    assert_eq!(a, b);
    assert_eq!(parse_updater_script(&with_lines).len(), 2);
}
