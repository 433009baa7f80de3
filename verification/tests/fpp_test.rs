use deer::model::diagram::Diagram;
use deer::model::node::NodeType;

#[test]
fn test_parse_sample_fpp() {
    let sample = r#"
3       	 <--SHAPES
2       	 <--LINES
id1
2       	 <--TYPE
298       	 <--LEFT
78       	 <--TOP
70       	 <--WIDTH
30       	 <--HEIGHT
16777215       	 <--BACKCOLOR
0       	 <--BORDERCOLOR
0       	 <--BORDERCOLOR
-reserved 1-
-reserved 2-
START

id2
91       	 <--TYPE
267       	 <--LEFT
149       	 <--TOP
132       	 <--WIDTH
40       	 <--HEIGHT
16777215       	 <--BACKCOLOR
0       	 <--BORDERCOLOR
0       	 <--BORDERCOLOR
-reserved 1-
-reserved 2-
OUTPUT
Hello World!

id3
2       	 <--TYPE
297       	 <--LEFT
234       	 <--TOP
70       	 <--WIDTH
30       	 <--HEIGHT
16777215       	 <--BACKCOLOR
0       	 <--BORDERCOLOR
0       	 <--BORDERCOLOR
-reserved 1-
-reserved 2-
STOP

  
---- LINES ---- from,to ----
id1,id2
reserved 1

id2,id3
reserved 1
"#;

    let diagram = Diagram::parse_fpp(sample).expect("Should parse FPP format successfully");
    assert_eq!(diagram.nodes.len(), 3);
    assert_eq!(diagram.connectors.len(), 2);
    assert_eq!(diagram.nodes[0].node_type, NodeType::Start);
    assert_eq!(diagram.nodes[1].node_type, NodeType::Output);
    assert_eq!(diagram.nodes[2].node_type, NodeType::Stop);
}

