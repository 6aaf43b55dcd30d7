use an758x_stock2ubi::mtd::Partition;
use an758x_stock2ubi::page::{html_escape, partition_table, render_index};

fn partition(index: u32, name: &str, size: u64, offset: Option<u64>) -> Partition {
    Partition {
        index,
        name: name.to_string(),
        size,
        erase_size: 0x20000,
        offset,
        path: format!("/dev/mtd{index}"),
    }
}

#[test]
fn escapes_markup() {
    assert_eq!(html_escape(""), "");
    assert_eq!(html_escape("a<b>&\"c\" &lt; 'd' \u{2014}"),
        "a&lt;b&gt;&amp;&quot;c&quot; &amp;lt; 'd' \u{2014}");
    for sample in ["&&<<", "\"<>&amp;", "plain", "<\u{1f600}>"] {
        let in_turn = sample
            .replace('&', "&amp;")
            .replace('<', "&lt;")
            .replace('>', "&gt;")
            .replace('"', "&quot;");
        assert_eq!(html_escape(sample), in_turn);
    }
}

#[test]
fn shows_an_empty_list() {
    assert_eq!(
        partition_table(&[]),
        "<p class=\"hint\" data-t=\"noPartitions\">No MTD partitions found.</p>"
    );
}

#[test]
fn shows_every_partition() {
    let partitions = vec![
        partition(0, "boot<", 0x20000, Some(0)),
        partition(12, "data", 8396, None),
        partition(3, "", 100, Some(0x1_2345_6789)),
    ];
    assert_eq!(
        partition_table(&partitions),
        concat_parts(&[
            "<table><thead><tr><th data-t=\"device\">Device</th><th data-t=\"name\">Name</th>",
            "<th data-t=\"size\">Size</th><th data-t=\"eraseBlock\">Erase block</th>",
            "<th data-t=\"physicalOffset\">Physical offset</th><th></th></tr></thead><tbody>",
            "<tr><td>mtd0</td><td>boot&lt;</td><td>128 KiB</td><td>128 KiB</td><td>0x00000000</td>",
            "<td><a data-t=\"download\" href=\"/backup/0\">Download</a></td></tr>",
            "<tr><td>mtd12</td><td>data</td><td>8.20 KiB</td><td>128 KiB</td><td>\u{2014}</td>",
            "<td><a data-t=\"download\" href=\"/backup/12\">Download</a></td></tr>",
            "<tr><td>mtd3</td><td></td><td>100 B</td><td>128 KiB</td><td>0x123456789</td>",
            "<td><a data-t=\"download\" href=\"/backup/3\">Download</a></td></tr>",
            "</tbody></table>",
        ])
    );
}

fn concat_parts(parts: &[&str]) -> String {
    parts.join("")
}

#[test]
fn fills_in_the_page() {
    let partitions = vec![partition(0, "{{VERSION}}", 1024, None)];
    let table = partition_table(&partitions);
    let template = "<h1>{{VERSION}}</h1>{{PARTITIONS}}{{{{VERSION}}}}{{PARTITIONS}";
    let page = render_index(template, "0.1.0", &partitions);
    assert_eq!(page, format!("<h1>0.1.0</h1>{table}{{{{0.1.0}}}}{{{{PARTITIONS}}"));
    assert_eq!(
        page,
        template.replace("{{VERSION}}", "0.1.0").replace("{{PARTITIONS}}", &table)
    );
    // A version is filled in before the table is.
    assert_eq!(
        render_index("{{VERSION}}", "{{PARTITIONS}}", &[]),
        partition_table(&[])
    );
    assert_eq!(render_index("nothing", "1", &partitions), "nothing");
    assert_eq!(render_index("", "1", &partitions), "");
}
