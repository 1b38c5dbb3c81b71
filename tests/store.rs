use spdx::found;
use spdx::LicenseId;
use spdx::Store;

#[test]
fn license_id_wraps_its_string() {
    let mut l = LicenseId::from("MIT".to_string());
    assert_eq!(l.as_ref(), "MIT");
    l.as_mut().push_str("-0");
    assert_eq!(l, LicenseId("MIT-0".to_string()));
    assert_eq!(l.to_string(), "MIT-0");
}

#[test]
fn found_reports_presence() {
    assert!(found(Ok(Some(3))).unwrap());
    assert!(!found::<u8>(Ok(None)).unwrap());
    assert!(found::<u8>(Err(anyhow::Error::msg("down"))).is_err());
}

#[derive(Debug, Default)]
struct MemoryStore {
    map: std::sync::Mutex<std::collections::HashMap<String, u32>>,
}

impl spdx::Store<String, u32> for MemoryStore {
    fn get_result(&self, key: &String, r: anyhow::Result<Option<u32>>) -> bool {
        match r {
            Ok(v) => v == self.map.lock().unwrap().get(key).copied(),
            Err(_) => false,
        }
    }

    fn get(&self, key: &String) -> anyhow::Result<Option<u32>> {
        Ok(self.map.lock().unwrap().get(key).copied())
    }

    fn insert(&self, key: String, val: u32) -> anyhow::Result<()> {
        self.map.lock().unwrap().insert(key, val);
        Ok(())
    }
}

#[test]
fn contains_key_sees_an_insert() {
    let s = MemoryStore::default();
    assert!(!s.contains_key(&"MIT".to_string()).unwrap());
    s.insert("MIT".to_string(), 1).unwrap();
    assert!(s.contains_key(&"MIT".to_string()).unwrap());
    assert_eq!(s.get(&"MIT".to_string()).unwrap(), Some(1));
    assert!(s.get_result(&"MIT".to_string(), Ok(Some(1))));
    assert!(!s.get_result(&"MIT".to_string(), Ok(None)));
}
