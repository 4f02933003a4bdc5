use ssredirector::host::{system_version_dll_path, IsUnityCrashHandler, MAX_PATH};

#[test]
fn recognises_crash_handler() {
    assert!(IsUnityCrashHandler("C:\\Games\\SS\\UnityCrashHandler64.exe"));
    assert!(IsUnityCrashHandler("D:/x/unitycrashhandler32.EXE"));
    assert!(IsUnityCrashHandler("UnityCrashHandler64.exe"));
    assert!(!IsUnityCrashHandler("C:\\Games\\SS\\StellaSora.exe"));
    assert!(!IsUnityCrashHandler("C:\\UnityCrashHandler64.exe\\"));
    assert!(!IsUnityCrashHandler(""));
}

#[test]
fn builds_version_dll_path() {
    let mut buffer = [0u16; MAX_PATH];
    let dir: Vec<u16> = "C:\\Windows\\system32".encode_utf16().collect();
    buffer[..dir.len()].copy_from_slice(&dir);
    let path = system_version_dll_path(&buffer, dir.len()).unwrap();
    let expected: Vec<u16> = "C:\\Windows\\system32\\version.dll\0".encode_utf16().collect();
    assert_eq!(path, expected);
    assert_eq!(system_version_dll_path(&buffer, 0), None);
    assert_eq!(system_version_dll_path(&buffer, MAX_PATH), None);
}
